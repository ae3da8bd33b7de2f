use vstd::prelude::*;
use crate::models::{ConnectionReaderApiModel, ConnectionWriterApiModel, ConnectionsApiModel};
use crate::order::{is_stable_arrangement, SortOrder, is_sorted, sort_stable, lex_le, str_le, lemma_lex_total, lemma_lex_transitive, lemma_lex_antisymmetric};

verus! {

/// Samples the traffic charts keep: two minutes at one a second.
pub const MAX_POINTS: usize = 120;

/// Server-wide traffic at one poll.
#[derive(Clone, Copy, Debug)]
pub struct Sample {
    pub incoming: u64,
    pub outgoing: u64,
    pub payloads: u64,
    pub write_bytes: u64,
}

/// The connections page: the last answer and the traffic history.
pub struct ConnectionsState {
    /// The poller runs.
    pub started: bool,
    pub snapshot: Option<ConnectionsApiModel>,
    /// Oldest first, at most `MAX_POINTS`.
    pub history: Vec<Sample>,
}

/// The sample of an answer.
pub open spec fn sample_of(s: ConnectionsApiModel) -> Sample {
    Sample {
        incoming: s.incoming_per_second,
        outgoing: s.outgoing_per_second,
        payloads: s.write_payloads_per_second,
        write_bytes: s.write_bytes_per_second,
    }
}

/// The newest `MAX_POINTS` samples of `h`.
pub open spec fn newest(h: Seq<Sample>) -> Seq<Sample> {
    if h.len() > MAX_POINTS {
        h.subrange(h.len() - MAX_POINTS, h.len() as int)
    } else {
        h
    }
}

impl Default for ConnectionsState {
    /// Nothing polled yet.
    fn default() -> (s: Self)
        ensures
            !s.started,
            s.snapshot is None,
            s.history@.len() == 0,
    {
        ConnectionsState { started: false, snapshot: None, history: Vec::new() }
    }
}

impl ConnectionsState {

    /// Records an answer: its sample joins the history, which keeps the
    /// newest `MAX_POINTS`, and it becomes the answer shown.
    pub fn push(&mut self, snapshot: ConnectionsApiModel)
        ensures
            final(self).history@ == newest(old(self).history@.push(sample_of(snapshot))),
            final(self).history@.len() <= MAX_POINTS,
            final(self).snapshot == Some(snapshot),
            final(self).started == old(self).started,
    {
        let sample = Sample {
            incoming: snapshot.incoming_per_second,
            outgoing: snapshot.outgoing_per_second,
            payloads: snapshot.write_payloads_per_second,
            write_bytes: snapshot.write_bytes_per_second,
        };
        self.history.push(sample);
        if self.history.len() > MAX_POINTS {
            let overflow = self.history.len() - MAX_POINTS;
            let mut kept: Vec<Sample> = Vec::new();
            let mut i: usize = overflow;
            while i < self.history.len()
                invariant
                    overflow <= i <= self.history.len(),
                    kept@ == self.history@.subrange(overflow as int, i as int),
                decreases self.history.len() - i,
            {
                kept.push(self.history[i]);
                proof {
                    assert(kept@ =~= self.history@.subrange(overflow as int, i + 1));
                }
                i = i + 1;
            }
            self.history = kept;
        }
        self.snapshot = Some(snapshot);
    }
}

/// Recording an answer appends a sample that carries the answer's incoming,
/// outgoing, payload and byte rates, each in its own field, and keeps the
/// samples before it, dropping the oldest beyond `MAX_POINTS`.
pub proof fn lemma_push_records_answer(h: Seq<Sample>, s: ConnectionsApiModel)
    ensures
        ({
            let r = newest(h.push(sample_of(s)));
            &&& r.len() == (if h.len() + 1 > MAX_POINTS { MAX_POINTS as int } else { h.len() + 1int })
            &&& r.last().incoming == s.incoming_per_second
            &&& r.last().outgoing == s.outgoing_per_second
            &&& r.last().payloads == s.write_payloads_per_second
            &&& r.last().write_bytes == s.write_bytes_per_second
            &&& forall|j: int| 0 <= j < r.len() - 1 ==> #[trigger] r[j] == h[h.len() - (r.len() - 1) + j]
        }),
{
}

/// The largest of `f` over the samples, or 0 for none.
pub open spec fn max_of(h: Seq<Sample>, f: spec_fn(Sample) -> u64) -> u64
    decreases h.len(),
{
    if h.len() == 0 {
        0
    } else {
        let rest = max_of(h.drop_last(), f);
        if f(h.last()) > rest {
            f(h.last())
        } else {
            rest
        }
    }
}

/// The larger of a sample's incoming and outgoing traffic.
pub open spec fn reader_traffic(s: Sample) -> u64 {
    if s.incoming > s.outgoing {
        s.incoming
    } else {
        s.outgoing
    }
}

/// The top of each traffic chart: the largest value it plots, at least 1.
pub struct ChartMaxima {
    pub traffic: u64,
    pub payloads: u64,
    pub throughput: u64,
}

/// At least 1.
pub open spec fn at_least_one(x: u64) -> u64 {
    if x >= 1 {
        x
    } else {
        1
    }
}

/// The tops of the reader traffic, payloads and throughput charts.
pub open spec fn spec_chart_maxima(history: Seq<Sample>) -> (u64, u64, u64) {
    (
        at_least_one(max_of(history, |s: Sample| reader_traffic(s))),
        at_least_one(max_of(history, |s: Sample| s.payloads)),
        at_least_one(max_of(history, |s: Sample| s.write_bytes)),
    )
}

proof fn lemma_max_of(h: Seq<Sample>, f: spec_fn(Sample) -> u64)
    ensures
        forall|j: int| 0 <= j < h.len() ==> f(#[trigger] h[j]) <= max_of(h, f),
        max_of(h, f) == 0 || exists|j: int| 0 <= j < h.len() && f(#[trigger] h[j]) == max_of(h, f),
    decreases h.len(),
{
    if h.len() > 0 {
        let rest = h.drop_last();
        lemma_max_of(rest, f);
        assert forall|j: int| 0 <= j < h.len() implies f(#[trigger] h[j]) <= max_of(h, f) by {
            if j < rest.len() {
                assert(rest[j] == h[j]);
            }
        }
        if max_of(h, f) != 0 {
            if f(h.last()) > max_of(rest, f) {
                assert(f(h[h.len() - 1]) == max_of(h, f));
            } else {
                let j = choose|j: int| 0 <= j < rest.len() && f(#[trigger] rest[j]) == max_of(rest, f);
                assert(h[j] == rest[j]);
            }
        }
    }
}

/// Each chart's top is at least 1 and at least every value it plots: the
/// larger of incoming and outgoing traffic, the payload rate, the byte
/// rate; and it is one of those values unless it is 1.
pub proof fn lemma_chart_maxima(h: Seq<Sample>)
    ensures
        ({
            let (traffic, payloads, throughput) = spec_chart_maxima(h);
            &&& traffic >= 1 && payloads >= 1 && throughput >= 1
            &&& forall|j: int| 0 <= j < h.len() ==> #[trigger] h[j].incoming <= traffic
                && h[j].outgoing <= traffic && h[j].payloads <= payloads
                && h[j].write_bytes <= throughput
            &&& traffic == 1 || exists|j: int| 0 <= j < h.len() && (#[trigger] h[j].incoming
                == traffic || h[j].outgoing == traffic)
            &&& payloads == 1 || exists|j: int| 0 <= j < h.len() && #[trigger] h[j].payloads
                == payloads
            &&& throughput == 1 || exists|j: int| 0 <= j < h.len() && #[trigger] h[j].write_bytes
                == throughput
        }),
{
    let ft = |s: Sample| reader_traffic(s);
    let fp = |s: Sample| s.payloads;
    let fb = |s: Sample| s.write_bytes;
    lemma_max_of(h, ft);
    lemma_max_of(h, fp);
    lemma_max_of(h, fb);
    let (traffic, payloads, throughput) = spec_chart_maxima(h);
    assert forall|j: int| 0 <= j < h.len() implies #[trigger] h[j].incoming <= traffic
        && h[j].outgoing <= traffic && h[j].payloads <= payloads && h[j].write_bytes <= throughput by {
        assert(ft(h[j]) <= max_of(h, ft));
        assert(fp(h[j]) <= max_of(h, fp));
        assert(fb(h[j]) <= max_of(h, fb));
    }
    if traffic != 1 {
        let j = choose|j: int| 0 <= j < h.len() && ft(#[trigger] h[j]) == max_of(h, ft);
        assert(h[j].incoming == traffic || h[j].outgoing == traffic);
    }
    if payloads != 1 {
        let j = choose|j: int| 0 <= j < h.len() && fp(#[trigger] h[j]) == max_of(h, fp);
        assert(h[j].payloads == payloads);
    }
    if throughput != 1 {
        let j = choose|j: int| 0 <= j < h.len() && fb(#[trigger] h[j]) == max_of(h, fb);
        assert(h[j].write_bytes == throughput);
    }
}

/// The tops of the reader traffic, payloads and throughput charts.
pub fn chart_maxima(history: &Vec<Sample>) -> (m: ChartMaxima)
    ensures
        m.traffic == at_least_one(max_of(history@, |s: Sample| reader_traffic(s))),
        m.payloads == at_least_one(max_of(history@, |s: Sample| s.payloads)),
        m.throughput == at_least_one(max_of(history@, |s: Sample| s.write_bytes)),
        (m.traffic, m.payloads, m.throughput) == spec_chart_maxima(history@),
{
    let mut traffic: u64 = 0;
    let mut payloads: u64 = 0;
    let mut throughput: u64 = 0;
    let mut i: usize = 0;
    while i < history.len()
        invariant
            i <= history.len(),
            traffic == max_of(history@.take(i as int), |s: Sample| reader_traffic(s)),
            payloads == max_of(history@.take(i as int), |s: Sample| s.payloads),
            throughput == max_of(history@.take(i as int), |s: Sample| s.write_bytes),
        decreases history.len() - i,
    {
        proof {
            assert(history@.take(i + 1).drop_last() =~= history@.take(i as int));
            assert(history@.take(i + 1).last() == history@[i as int]);
        }
        let s = history[i];
        let t = if s.incoming > s.outgoing { s.incoming } else { s.outgoing };
        if t > traffic {
            traffic = t;
        }
        if s.payloads > payloads {
            payloads = s.payloads;
        }
        if s.write_bytes > throughput {
            throughput = s.write_bytes;
        }
        i = i + 1;
    }
    proof {
        assert(history@.take(i as int) =~= history@);
    }
    ChartMaxima {
        traffic: if traffic >= 1 { traffic } else { 1 },
        payloads: if payloads >= 1 { payloads } else { 1 },
        throughput: if throughput >= 1 { throughput } else { 1 },
    }
}

/// Positions of the readers in namespace `ns`, in order.
pub open spec fn readers_in(readers: Seq<ConnectionReaderApiModel>, ns: Seq<char>) -> Seq<usize>
    decreases readers.len(),
{
    if readers.len() == 0 {
        Seq::empty()
    } else if readers.last().namespace@ == ns {
        readers_in(readers.drop_last(), ns).push((readers.len() - 1) as usize)
    } else {
        readers_in(readers.drop_last(), ns)
    }
}

/// Positions of the writers in namespace `ns`, in order.
pub open spec fn writers_in(writers: Seq<ConnectionWriterApiModel>, ns: Seq<char>) -> Seq<usize>
    decreases writers.len(),
{
    if writers.len() == 0 {
        Seq::empty()
    } else if writers.last().namespace@ == ns {
        writers_in(writers.drop_last(), ns).push((writers.len() - 1) as usize)
    } else {
        writers_in(writers.drop_last(), ns)
    }
}

/// The positions listed for a namespace are exactly those of the writers in
/// it, each once, in increasing order.
pub proof fn lemma_writers_in(writers: Seq<ConnectionWriterApiModel>, ns: Seq<char>)
    requires
        writers.len() <= usize::MAX,
    ensures
        forall|i: usize| #[trigger] writers_in(writers, ns).contains(i) <==> i < writers.len() && writers[i as int].namespace@
            == ns,
        forall|j: int, k: int|
            0 <= j < k < writers_in(writers, ns).len() ==> #[trigger] writers_in(writers, ns)[j]
                < #[trigger] writers_in(writers, ns)[k],
        forall|j: int|
            0 <= j < writers_in(writers, ns).len() ==> #[trigger] writers_in(writers, ns)[j] < writers.len(),
    decreases writers.len(),
{
    if writers.len() > 0 {
        let rest = writers.drop_last();
        lemma_writers_in(rest, ns);
        let r = writers_in(writers, ns);
        let rr = writers_in(rest, ns);
        let last = (writers.len() - 1) as usize;
        if writers.last().namespace@ == ns {
            assert(r == rr.push(last));
            assert forall|j: int, k: int| 0 <= j < k < r.len() implies #[trigger] r[j] < #[trigger] r[k] by {
                if k == rr.len() {
                    assert(r[j] == rr[j]);
                } else {
                    assert(r[j] == rr[j] && r[k] == rr[k]);
                }
            }
            assert forall|j: int| 0 <= j < r.len() implies #[trigger] r[j] < writers.len() by {
                if j < rr.len() {
                    assert(r[j] == rr[j]);
                }
            }
        } else {
            assert(r == rr);
        }
        assert forall|i: usize| #[trigger] r.contains(i) <==> i < writers.len() && writers[i as int].namespace@ == ns by {
            if i < writers.len() - 1 {
                assert(rest[i as int] == writers[i as int]);
            }
            if writers.last().namespace@ == ns {
                if r.contains(i) && i != last {
                    let j = choose|j: int| 0 <= j < r.len() && r[j] == i;
                    assert(j < rr.len());
                    assert(rr[j] == i);
                }
                if rr.contains(i) {
                    let j = choose|j: int| 0 <= j < rr.len() && rr[j] == i;
                    assert(r[j] == i);
                }
                if i == last {
                    assert(r[rr.len() as int] == last);
                }
            } else {
                if rr.contains(i) {
                    let j = choose|j: int| 0 <= j < rr.len() && rr[j] == i;
                    assert(rr[j] < rest.len());
                }
            }
        }
    }
}

/// The positions listed for a namespace are exactly those of the readers in
/// it, each once, in increasing order.
pub proof fn lemma_readers_in(readers: Seq<ConnectionReaderApiModel>, ns: Seq<char>)
    requires
        readers.len() <= usize::MAX,
    ensures
        forall|i: usize| #[trigger] readers_in(readers, ns).contains(i) <==> i < readers.len() && readers[i as int].namespace@
            == ns,
        forall|j: int, k: int|
            0 <= j < k < readers_in(readers, ns).len() ==> #[trigger] readers_in(readers, ns)[j]
                < #[trigger] readers_in(readers, ns)[k],
        forall|j: int|
            0 <= j < readers_in(readers, ns).len() ==> #[trigger] readers_in(readers, ns)[j] < readers.len(),
    decreases readers.len(),
{
    if readers.len() > 0 {
        let rest = readers.drop_last();
        lemma_readers_in(rest, ns);
        let r = readers_in(readers, ns);
        let rr = readers_in(rest, ns);
        let last = (readers.len() - 1) as usize;
        if readers.last().namespace@ == ns {
            assert(r == rr.push(last));
            assert forall|j: int, k: int| 0 <= j < k < r.len() implies #[trigger] r[j] < #[trigger] r[k] by {
                if k == rr.len() {
                    assert(r[j] == rr[j]);
                } else {
                    assert(r[j] == rr[j] && r[k] == rr[k]);
                }
            }
            assert forall|j: int| 0 <= j < r.len() implies #[trigger] r[j] < readers.len() by {
                if j < rr.len() {
                    assert(r[j] == rr[j]);
                }
            }
        } else {
            assert(r == rr);
        }
        assert forall|i: usize| #[trigger] r.contains(i) <==> i < readers.len() && readers[i as int].namespace@ == ns by {
            if i < readers.len() - 1 {
                assert(rest[i as int] == readers[i as int]);
            }
            if readers.last().namespace@ == ns {
                if r.contains(i) && i != last {
                    let j = choose|j: int| 0 <= j < r.len() && r[j] == i;
                    assert(j < rr.len());
                    assert(rr[j] == i);
                }
                if rr.contains(i) {
                    let j = choose|j: int| 0 <= j < rr.len() && rr[j] == i;
                    assert(r[j] == i);
                }
                if i == last {
                    assert(r[rr.len() as int] == last);
                }
            } else {
                if rr.contains(i) {
                    let j = choose|j: int| 0 <= j < rr.len() && rr[j] == i;
                    assert(rr[j] < rest.len());
                }
            }
        }
    }
}

/// The readers the page lists: those of the namespace the UI works in.
pub fn namespace_readers(readers: &Vec<ConnectionReaderApiModel>, ns: &str) -> (r: Vec<usize>)
    ensures
        r@ == readers_in(readers@, ns@),
{
    let target = ns.to_owned();
    let mut out: Vec<usize> = Vec::new();
    let mut i: usize = 0;
    while i < readers.len()
        invariant
            i <= readers.len(),
            target@ == ns@,
            out@ == readers_in(readers@.take(i as int), ns@),
        decreases readers.len() - i,
    {
        proof {
            assert(readers@.take(i + 1).drop_last() =~= readers@.take(i as int));
            assert(readers@.take(i + 1).last() == readers@[i as int]);
        }
        if readers[i].namespace == target {
            out.push(i);
        }
        i = i + 1;
    }
    proof {
        assert(readers@.take(i as int) =~= readers@);
    }
    out
}

/// The writers the page lists: those of the namespace the UI works in.
pub fn namespace_writers(writers: &Vec<ConnectionWriterApiModel>, ns: &str) -> (r: Vec<usize>)
    ensures
        r@ == writers_in(writers@, ns@),
{
    let target = ns.to_owned();
    let mut out: Vec<usize> = Vec::new();
    let mut i: usize = 0;
    while i < writers.len()
        invariant
            i <= writers.len(),
            target@ == ns@,
            out@ == writers_in(writers@.take(i as int), ns@),
        decreases writers.len() - i,
    {
        proof {
            assert(writers@.take(i + 1).drop_last() =~= writers@.take(i as int));
            assert(writers@.take(i + 1).last() == writers@[i as int]);
        }
        if writers[i].namespace == target {
            out.push(i);
        }
        i = i + 1;
    }
    proof {
        assert(writers@.take(i as int) =~= writers@);
    }
    out
}

/// Writer rows are ordered by name, then session.
pub open spec fn writer_row_before(a: ConnectionWriterApiModel, b: ConnectionWriterApiModel) -> bool {
    ||| lex_le(a.name@, b.name@) && a.name@ != b.name@
    ||| a.name@ == b.name@ && lex_le(a.session@, b.session@)
}

impl SortOrder for ConnectionWriterApiModel {
    open spec fn before(a: Self, b: Self) -> bool {
        writer_row_before(a, b)
    }

    proof fn lemma_before_total(a: Self, b: Self) {
        lemma_lex_total(a.name@, b.name@);
        lemma_lex_total(a.session@, b.session@);
    }

    proof fn lemma_before_transitive(a: Self, b: Self, c: Self) {
        if lex_le(a.name@, b.name@) && lex_le(b.name@, c.name@) {
            lemma_lex_transitive(a.name@, b.name@, c.name@);
            if a.name@ == c.name@ {
                lemma_lex_antisymmetric(a.name@, b.name@);
            }
        }
        if lex_le(a.session@, b.session@) && lex_le(b.session@, c.session@) {
            lemma_lex_transitive(a.session@, b.session@, c.session@);
        }
    }

    fn comes_before(&self, other: &Self) -> (r: bool) {
        if self.name != other.name {
            return str_le(self.name.as_str(), other.name.as_str());
        }
        str_le(self.session.as_str(), other.session.as_str())
    }
}

/// The writer rows in display order.
pub fn sort_writers(writers: Vec<ConnectionWriterApiModel>) -> (r: Vec<ConnectionWriterApiModel>)
    ensures
        is_sorted(r@),
        r@.to_multiset() == writers@.to_multiset(),
        exists|p: Seq<int>| is_stable_arrangement(writers@, r@, p),
{
    sort_stable(writers)
}

/// What the kind column says of a reader connection.
pub fn reader_kind(is_node: bool) -> (s: &'static str)
    ensures
        s@ == (if is_node { "node"@ } else { "reader"@ }),
{
    if is_node {
        "node"
    } else {
        "reader"
    }
}

} // verus!
