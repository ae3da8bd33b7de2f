use vstd::prelude::*;

use crate::models::{ReaderApiModel, TableApiModel, WriterApiModel};
use crate::order::{is_stable_arrangement, is_sorted, lemma_lex_antisymmetric, lemma_lex_total, lemma_lex_transitive, lex_le, sort_stable, str_le, SortOrder};
use crate::ranking::{is_ranking, outranks, rank};
use crate::tally::{append_strings, contains_str, distinct_texts, is_tally, lemma_prefix_push, lemma_tally_len, lemma_views_push, occurrences, tally, views};
use crate::text::{decimal, decimal_string};
use crate::tones::{latency_tone, StatTone, StateTone};

verus! {

/// Tables shown per node before the rest collapse into a "+N" badge.
pub const VISIBLE_TABLES: usize = 3;

/// The names of the connections.
pub open spec fn reader_names(nodes: Seq<ReaderApiModel>) -> Seq<Seq<char>> {
    nodes.map_values(|n: ReaderApiModel| n.name@)
}

/// Nodes, not connections: the connections a node opens per namespace all
/// carry its location as the name, so this counts the distinct names.
pub fn count_distinct_nodes(nodes: &[ReaderApiModel]) -> (r: usize)
    ensures
        r == reader_names(nodes@).to_set().len(),
{
    let mut names: Vec<String> = Vec::new();
    let mut i: usize = 0;
    while i < nodes.len()
        invariant
            i <= nodes.len(),
            views(names@) == reader_names(nodes@.subrange(0, i as int)),
        decreases nodes.len() - i,
    {
        let ghost old_names = names@;
        names.push(nodes[i].name.clone());
        proof {
            lemma_views_push(old_names, nodes@[i as int].name);
            lemma_prefix_push(nodes@, i as int);
            assert(reader_names(nodes@.subrange(0, i as int).push(nodes@[i as int])) =~= reader_names(
                nodes@.subrange(0, i as int),
            ).push(nodes@[i as int].name@));
        }
        i = i + 1;
    }
    proof {
        assert(nodes@.subrange(0, nodes@.len() as int) =~= nodes@);
    }
    let (keys, _counts) = tally(&names);
    proof {
        let k = views(keys@);
        assert(k.no_duplicates()) by {
            assert(distinct_texts(k));
        }
        k.unique_seq_to_set();
        assert(k.to_set() =~= views(names@).to_set());
    }
    keys.len()
}

/// Connection rows are ordered by node name, then namespace, then id.
pub open spec fn reader_row_before(a: ReaderApiModel, b: ReaderApiModel) -> bool {
    ||| lex_le(a.name@, b.name@) && a.name@ != b.name@
    ||| a.name@ == b.name@ && lex_le(a.namespace@, b.namespace@) && a.namespace@ != b.namespace@
    ||| a.name@ == b.name@ && a.namespace@ == b.namespace@ && lex_le(a.id@, b.id@)
}

impl SortOrder for ReaderApiModel {
    open spec fn before(a: Self, b: Self) -> bool {
        reader_row_before(a, b)
    }

    proof fn lemma_before_total(a: Self, b: Self) {
        lemma_lex_total(a.name@, b.name@);
        lemma_lex_total(a.namespace@, b.namespace@);
        lemma_lex_total(a.id@, b.id@);
    }

    proof fn lemma_before_transitive(a: Self, b: Self, c: Self) {
        if lex_le(a.name@, b.name@) && lex_le(b.name@, c.name@) {
            lemma_lex_transitive(a.name@, b.name@, c.name@);
        }
        if lex_le(a.namespace@, b.namespace@) && lex_le(b.namespace@, c.namespace@) {
            lemma_lex_transitive(a.namespace@, b.namespace@, c.namespace@);
        }
        if lex_le(a.id@, b.id@) && lex_le(b.id@, c.id@) {
            lemma_lex_transitive(a.id@, b.id@, c.id@);
        }
        if lex_le(a.name@, b.name@) && lex_le(b.name@, c.name@) && a.name@ == c.name@ {
            lemma_lex_antisymmetric(a.name@, b.name@);
        }
        if lex_le(a.namespace@, b.namespace@) && lex_le(b.namespace@, c.namespace@)
            && a.namespace@ == c.namespace@ {
            lemma_lex_antisymmetric(a.namespace@, b.namespace@);
        }
    }

    fn comes_before(&self, other: &Self) -> (r: bool) {
        if self.name != other.name {
            return str_le(self.name.as_str(), other.name.as_str());
        }
        if self.namespace != other.namespace {
            return str_le(self.namespace.as_str(), other.namespace.as_str());
        }
        str_le(self.id.as_str(), other.id.as_str())
    }
}

/// The node rows in display order: `/api/Status` lists readers in no
/// particular order, sorted they stay put between refreshes.
pub fn sort_nodes(nodes: Vec<ReaderApiModel>) -> (r: Vec<ReaderApiModel>)
    ensures
        is_sorted(r@),
        r@.to_multiset() == nodes@.to_multiset(),
        exists|p: Seq<int>| is_stable_arrangement(nodes@, r@, p),
{
    sort_stable(nodes)
}

/// The table badges of a node row: the first few tables, and a "+N" badge
/// for the rest.
pub fn node_table_badges(tables: &Vec<String>) -> (r: (Vec<String>, Option<String>))
    ensures
        views(r.0@) == views(tables@).take(
            if tables.len() < VISIBLE_TABLES { tables.len() as int } else { VISIBLE_TABLES as int },
        ),
        tables.len() > VISIBLE_TABLES ==> r.1 is Some && r.1.unwrap()@ == seq!['+'] + decimal(
            (tables.len() - VISIBLE_TABLES) as nat,
        ),
        tables.len() <= VISIBLE_TABLES ==> r.1 is None,
{
    let mut shown: Vec<String> = Vec::new();
    let mut i: usize = 0;
    while i < tables.len() && i < VISIBLE_TABLES
        invariant
            i <= tables.len(),
            i <= VISIBLE_TABLES,
            views(shown@) == views(tables@).take(i as int),
        decreases tables.len() - i,
    {
        let ghost old_shown = shown@;
        shown.push(tables[i].clone());
        proof {
            lemma_views_push(old_shown, tables@[i as int]);
            assert(views(tables@).take(i + 1) =~= views(tables@).take(i as int).push(
                tables@[i as int]@,
            ));
        }
        i = i + 1;
    }
    let overflow = if tables.len() > VISIBLE_TABLES {
        let mut label = String::from_str("+");
        label.append(decimal_string((tables.len() - VISIBLE_TABLES) as u64).as_str());
        proof {
            reveal_strlit("+");
        }
        Some(label)
    } else {
        None
    };
    (shown, overflow)
}

/// `"<nodes> connected · <connections> connections"`.
pub fn nodes_subtitle(node_count: usize, connection_count: usize) -> (s: String)
    ensures
        s@ == decimal(node_count as nat) + " connected \u{b7} "@ + decimal(connection_count as nat)
            + " connections"@,
{
    let mut s = decimal_string(node_count as u64);
    s.append(" connected \u{b7} ");
    s.append(decimal_string(connection_count as u64).as_str());
    s.append(" connections");
    s
}

/// The round trips the nodes reported, in order.
pub open spec fn reported_latencies(nodes: Seq<ReaderApiModel>) -> Seq<i64>
    decreases nodes.len(),
{
    if nodes.len() == 0 {
        seq![]
    } else {
        let rest = reported_latencies(nodes.drop_last());
        match nodes.last().latency {
            Some(l) => rest.push(l),
            None => rest,
        }
    }
}

/// The largest value of a non-empty list.
pub open spec fn seq_max(s: Seq<i64>) -> int
    decreases s.len(),
{
    if s.len() <= 1 {
        s[0] as int
    } else {
        let m = seq_max(s.drop_last());
        if s.last() > m { s.last() as int } else { m }
    }
}

proof fn lemma_seq_max_push(s: Seq<i64>, x: i64)
    ensures
        s.len() == 0 ==> seq_max(s.push(x)) == x,
        s.len() > 0 ==> seq_max(s.push(x)) == (if x > seq_max(s) { x as int } else { seq_max(s) }),
{
    assert(s.push(x).drop_last() =~= s);
}

proof fn lemma_seq_max_range(s: Seq<i64>)
    requires
        s.len() > 0,
    ensures
        i64::MIN <= seq_max(s) <= i64::MAX,
    decreases s.len(),
{
    if s.len() > 1 {
        lemma_seq_max_range(s.drop_last());
    }
}

/// What the nodes tile says of latency.
#[derive(Clone, Copy, Debug, PartialEq, Eq, Structural)]
pub enum NodesLatency {
    /// No node is connected.
    NoNodes,
    /// Nodes are connected, none has reported a round trip.
    NotReported,
    /// The worst round trip any node reported, in microseconds.
    Worst(i64),
}

pub open spec fn spec_nodes_latency(nodes: Seq<ReaderApiModel>) -> NodesLatency {
    if nodes.len() == 0 {
        NodesLatency::NoNodes
    } else if reported_latencies(nodes).len() == 0 {
        NodesLatency::NotReported
    } else {
        NodesLatency::Worst(seq_max(reported_latencies(nodes)) as i64)
    }
}

proof fn lemma_reported_latencies(nodes: Seq<ReaderApiModel>)
    ensures
        forall|l: i64| reported_latencies(nodes).contains(l) <==> exists|i: int|
            0 <= i < nodes.len() && #[trigger] nodes[i].latency == Some(l),
    decreases nodes.len(),
{
    if nodes.len() > 0 {
        let rest = nodes.drop_last();
        lemma_reported_latencies(rest);
        let r = reported_latencies(nodes);
        let rr = reported_latencies(rest);
        assert forall|l: i64| r.contains(l) <==> exists|i: int|
            0 <= i < nodes.len() && #[trigger] nodes[i].latency == Some(l) by {
            if r.contains(l) {
                let j = choose|j: int| 0 <= j < r.len() && r[j] == l;
                if j < rr.len() {
                    assert(rr.contains(l));
                    let i = choose|i: int| 0 <= i < rest.len() && #[trigger] rest[i].latency == Some(l);
                    assert(nodes[i] == rest[i]);
                } else {
                    assert(nodes[nodes.len() - 1].latency == Some(l));
                }
            }
            if exists|i: int| 0 <= i < nodes.len() && #[trigger] nodes[i].latency == Some(l) {
                let i = choose|i: int| 0 <= i < nodes.len() && #[trigger] nodes[i].latency == Some(l);
                if i < nodes.len() - 1 {
                    assert(rest[i] == nodes[i]);
                    assert(rr.contains(l));
                    let j = choose|j: int| 0 <= j < rr.len() && rr[j] == l;
                    assert(r[j] == l);
                } else {
                    assert(r[rr.len() as int] == l);
                }
            }
        }
    }
}

proof fn lemma_seq_max_is_max(s: Seq<i64>)
    requires
        s.len() > 0,
    ensures
        forall|j: int| 0 <= j < s.len() ==> #[trigger] s[j] <= seq_max(s),
        s.contains(seq_max(s) as i64),
    decreases s.len(),
{
    lemma_seq_max_range(s);
    if s.len() > 1 {
        let rest = s.drop_last();
        lemma_seq_max_is_max(rest);
        assert(s =~= rest.push(s.last()));
        lemma_seq_max_push(rest, s.last());
        assert forall|j: int| 0 <= j < s.len() implies #[trigger] s[j] <= seq_max(s) by {
            if j < rest.len() {
                assert(rest[j] == s[j]);
            }
        }
        if s.last() > seq_max(rest) {
            assert(s[s.len() - 1] == seq_max(s) as i64);
        } else {
            let j = choose|j: int| 0 <= j < rest.len() && rest[j] == seq_max(rest) as i64;
            assert(s[j] == rest[j]);
        }
    } else {
        assert(s[0] == seq_max(s) as i64);
    }
}

/// The nodes tile reads "no nodes" exactly when none is connected, "not
/// reported" when no connected node reported a round trip, and otherwise
/// carries the largest round trip reported, which some node reported.
pub proof fn lemma_nodes_latency(nodes: Seq<ReaderApiModel>)
    ensures
        spec_nodes_latency(nodes) == NodesLatency::NoNodes <==> nodes.len() == 0,
        spec_nodes_latency(nodes) == NodesLatency::NotReported <==> nodes.len() > 0 && forall|i: int|
            0 <= i < nodes.len() ==> (#[trigger] nodes[i].latency) is None,
        spec_nodes_latency(nodes) matches NodesLatency::Worst(w) ==> {
            &&& forall|i: int|
                0 <= i < nodes.len() && (#[trigger] nodes[i].latency) is Some ==> nodes[i].latency->Some_0
                    <= w
            &&& exists|i: int| 0 <= i < nodes.len() && #[trigger] nodes[i].latency == Some(w)
        },
{
    lemma_reported_latencies(nodes);
    let r = reported_latencies(nodes);
    if r.len() == 0 {
        assert forall|i: int| 0 <= i < nodes.len() implies (#[trigger] nodes[i].latency) is None by {
            if nodes[i].latency is Some {
                let l = nodes[i].latency->Some_0;
                assert(r.contains(l));
            }
        }
    } else {
        assert(r.contains(r[0]));
        lemma_seq_max_is_max(r);
        lemma_seq_max_range(r);
        if nodes.len() > 0 && forall|i: int| 0 <= i < nodes.len() ==> (#[trigger] nodes[i].latency) is None {
            let i = choose|i: int| 0 <= i < nodes.len() && #[trigger] nodes[i].latency == Some(r[0]);
            assert(nodes[i].latency is None);
        }
        let w = seq_max(r) as i64;
        assert forall|i: int| 0 <= i < nodes.len() && (#[trigger] nodes[i].latency) is Some
            implies nodes[i].latency->Some_0 <= w by {
            let l = nodes[i].latency->Some_0;
            assert(nodes[i].latency == Some(l));
            assert(r.contains(l));
            let j = choose|j: int| 0 <= j < r.len() && r[j] == l;
            assert(r[j] <= seq_max(r));
        }
        assert(r.contains(w));
    }
}

/// The slowest node is the one worth a glance, so the tile carries the worst
/// round trip any node reported.
pub fn nodes_latency(nodes: &[ReaderApiModel]) -> (r: NodesLatency)
    ensures
        r == spec_nodes_latency(nodes@),
{
    if nodes.len() == 0 {
        return NodesLatency::NoNodes;
    }
    let mut worst: Option<i64> = None;
    let mut i: usize = 0;
    while i < nodes.len()
        invariant
            i <= nodes.len(),
            reported_latencies(nodes@.subrange(0, i as int)).len() == 0 ==> worst is None,
            reported_latencies(nodes@.subrange(0, i as int)).len() > 0 ==> worst == Some(
                seq_max(reported_latencies(nodes@.subrange(0, i as int))) as i64,
            ),
        decreases nodes.len() - i,
    {
        let ghost prev = reported_latencies(nodes@.subrange(0, i as int));
        proof {
            assert(nodes@.subrange(0, i + 1).drop_last() =~= nodes@.subrange(0, i as int));
            assert(nodes@.subrange(0, i + 1).last() == nodes@[i as int]);
            if prev.len() > 0 {
                lemma_seq_max_range(prev);
            }
            if let Some(l) = nodes@[i as int].latency {
                lemma_seq_max_push(prev, l);
            }
        }
        if let Some(l) = nodes[i].latency {
            worst = match worst {
                Some(w) => if l > w { Some(l) } else { Some(w) },
                None => Some(l),
            };
        }
        i = i + 1;
    }
    proof {
        assert(nodes@.subrange(0, nodes@.len() as int) =~= nodes@);
    }
    match worst {
        Some(w) => NodesLatency::Worst(w),
        None => NodesLatency::NotReported,
    }
}

/// The tone of the nodes tile: that of the worst round trip; informational
/// while there is none.
pub open spec fn spec_nodes_latency_tone(l: NodesLatency) -> StatTone {
    match l {
        NodesLatency::Worst(w) => match latency_tone(w as int) {
            StateTone::Bad => StatTone::Bad,
            StateTone::Warn => StatTone::Warn,
            _ => StatTone::Good,
        },
        _ => StatTone::Info,
    }
}

pub fn nodes_latency_tone(l: NodesLatency) -> (t: StatTone)
    ensures
        t == spec_nodes_latency_tone(l),
{
    match l {
        NodesLatency::Worst(w) => match crate::tones::classify_latency(w) {
            StateTone::Bad => StatTone::Bad,
            StateTone::Warn => StatTone::Warn,
            StateTone::Good | StateTone::Neutral => StatTone::Good,
        },
        _ => StatTone::Info,
    }
}

/// The nodes tile's tone: red from a worst round trip of 300 ms, yellow from
/// 100 ms up to that, green below; informational when no node reported one.
pub proof fn lemma_nodes_latency_tone(l: NodesLatency)
    ensures
        l matches NodesLatency::Worst(w) ==> spec_nodes_latency_tone(l) == (if w >= 300_000 {
            StatTone::Bad
        } else if w >= 100_000 {
            StatTone::Warn
        } else {
            StatTone::Good
        }),
        !(l is Worst) ==> spec_nodes_latency_tone(l) == StatTone::Info,
{
}

/// Sum of the partition counts of the tables.
pub open spec fn sum_partitions(tables: Seq<TableApiModel>) -> int
    decreases tables.len(),
{
    if tables.len() == 0 { 0 } else { sum_partitions(tables.drop_last()) + tables.last().partitions_count }
}

/// Sum of the row counts of the tables.
pub open spec fn sum_records(tables: Seq<TableApiModel>) -> int
    decreases tables.len(),
{
    if tables.len() == 0 { 0 } else { sum_records(tables.drop_last()) + tables.last().records_amount }
}

/// Sum of the number of tables each writer writes.
pub open spec fn sum_bindings(writers: Seq<WriterApiModel>) -> int
    decreases writers.len(),
{
    if writers.len() == 0 { 0 } else { sum_bindings(writers.drop_last()) + writers.last().tables.len() }
}

proof fn lemma_sums_nonneg(tables: Seq<TableApiModel>)
    ensures
        sum_partitions(tables) >= 0,
        sum_records(tables) >= 0,
    decreases tables.len(),
{
    if tables.len() > 0 {
        lemma_sums_nonneg(tables.drop_last());
    }
}

proof fn lemma_bindings_nonneg(writers: Seq<WriterApiModel>)
    ensures
        sum_bindings(writers) >= 0,
    decreases writers.len(),
{
    if writers.len() > 0 {
        lemma_bindings_nonneg(writers.drop_last());
    }
}

proof fn lemma_sums_monotone(tables: Seq<TableApiModel>, i: int)
    requires
        0 <= i <= tables.len(),
    ensures
        0 <= sum_partitions(tables.subrange(0, i)) <= sum_partitions(tables),
        0 <= sum_records(tables.subrange(0, i)) <= sum_records(tables),
    decreases tables.len() - i,
{
    if i < tables.len() {
        lemma_sums_monotone(tables, i + 1);
        lemma_sums_nonneg(tables.subrange(0, i));
        assert(tables.subrange(0, i + 1).drop_last() =~= tables.subrange(0, i));
    } else {
        assert(tables.subrange(0, i) =~= tables);
        lemma_sums_nonneg(tables);
    }
}

proof fn lemma_bindings_monotone(writers: Seq<WriterApiModel>, i: int)
    requires
        0 <= i <= writers.len(),
    ensures
        0 <= sum_bindings(writers.subrange(0, i)) <= sum_bindings(writers),
    decreases writers.len() - i,
{
    if i < writers.len() {
        lemma_bindings_monotone(writers, i + 1);
        lemma_bindings_nonneg(writers.subrange(0, i));
        assert(writers.subrange(0, i + 1).drop_last() =~= writers.subrange(0, i));
    } else {
        assert(writers.subrange(0, i) =~= writers);
        lemma_bindings_nonneg(writers);
    }
}

/// The figures of the overview's first tiles.
pub struct StatsTotals {
    pub table_count: usize,
    pub partitions: u64,
    pub total_rows: u64,
    pub writer_count: usize,
    pub writer_bindings: usize,
}

/// Totals over the tables and writers the status reports. The sums must fit
/// their integer types, as they must for `Iterator::sum` not to overflow.
pub fn stats_totals(tables: &[TableApiModel], writers: &[WriterApiModel]) -> (r: StatsTotals)
    requires
        sum_partitions(tables@) <= u64::MAX,
        sum_records(tables@) <= u64::MAX,
        sum_bindings(writers@) <= usize::MAX,
    ensures
        r.table_count == tables.len(),
        r.partitions == sum_partitions(tables@),
        r.total_rows == sum_records(tables@),
        r.writer_count == writers.len(),
        r.writer_bindings == sum_bindings(writers@),
{
    let mut partitions: u64 = 0;
    let mut total_rows: u64 = 0;
    let mut i: usize = 0;
    while i < tables.len()
        invariant
            i <= tables.len(),
            sum_partitions(tables@) <= u64::MAX,
            sum_records(tables@) <= u64::MAX,
            partitions == sum_partitions(tables@.subrange(0, i as int)),
            total_rows == sum_records(tables@.subrange(0, i as int)),
        decreases tables.len() - i,
    {
        proof {
            assert(tables@.subrange(0, i + 1).drop_last() =~= tables@.subrange(0, i as int));
            lemma_sums_monotone(tables@, i + 1);
        }
        partitions = partitions + tables[i].partitions_count;
        total_rows = total_rows + tables[i].records_amount;
        i = i + 1;
    }
    let mut bindings: usize = 0;
    let mut j: usize = 0;
    while j < writers.len()
        invariant
            j <= writers.len(),
            sum_bindings(writers@) <= usize::MAX,
            bindings == sum_bindings(writers@.subrange(0, j as int)),
        decreases writers.len() - j,
    {
        proof {
            assert(writers@.subrange(0, j + 1).drop_last() =~= writers@.subrange(0, j as int));
            lemma_bindings_monotone(writers@, j + 1);
        }
        bindings = bindings + writers[j].tables.len();
        j = j + 1;
    }
    proof {
        assert(tables@.subrange(0, tables@.len() as int) =~= tables@);
        assert(writers@.subrange(0, writers@.len() as int) =~= writers@);
    }
    StatsTotals {
        table_count: tables.len(),
        partitions,
        total_rows,
        writer_count: writers.len(),
        writer_bindings: bindings,
    }
}

/// The tables the writers write, each writer's list in turn.
pub open spec fn written_tables(writers: Seq<WriterApiModel>) -> Seq<Seq<char>>
    decreases writers.len(),
{
    if writers.len() == 0 {
        seq![]
    } else {
        written_tables(writers.drop_last()) + views(writers.last().tables@)
    }
}

/// The tables the readers read, each reader's list in turn.
pub open spec fn read_tables(readers: Seq<ReaderApiModel>) -> Seq<Seq<char>>
    decreases readers.len(),
{
    if readers.len() == 0 {
        seq![]
    } else {
        read_tables(readers.drop_last()) + views(readers.last().tables@)
    }
}

/// How many of the tables some writer writes.
pub open spec fn covered_count(tables: Seq<TableApiModel>, written: Seq<Seq<char>>) -> nat
    decreases tables.len(),
{
    if tables.len() == 0 {
        0
    } else {
        covered_count(tables.drop_last(), written) + (if written.contains(tables.last().name@) {
            1nat
        } else {
            0nat
        })
    }
}

proof fn lemma_covered_le(tables: Seq<TableApiModel>, written: Seq<Seq<char>>)
    ensures
        covered_count(tables, written) <= tables.len(),
    decreases tables.len(),
{
    if tables.len() > 0 {
        lemma_covered_le(tables.drop_last(), written);
    }
}

/// The most read tables of the coverage card, with how many readers read each.
pub open spec fn is_top_reads(reads: Seq<Seq<char>>, top: Seq<(String, usize)>, limit: nat) -> bool {
    &&& top.len() == (if limit < reads.to_set().len() { limit } else { reads.to_set().len() })
    &&& forall|p: int| 0 <= p < top.len() ==> reads.contains(#[trigger] top[p].0@)
    &&& forall|p: int| 0 <= p < top.len() ==> #[trigger] top[p].1 == occurrences(reads, top[p].0@)
    &&& forall|p: int, q: int| 0 <= p < q < top.len() ==> #[trigger] top[p].0@ != #[trigger] top[q].0@
    &&& forall|p: int, q: int| 0 <= p < q < top.len() ==> #[trigger] top[p].1 >= #[trigger] top[q].1
    &&& forall|p: int, x: Seq<char>|
        #![trigger top[p], occurrences(reads, x)]
        0 <= p < top.len() && reads.contains(x) && !top_names(top).contains(x) ==> occurrences(
            reads,
            x,
        ) <= top[p].1
}

/// The table names of a top list.
pub open spec fn top_names(top: Seq<(String, usize)>) -> Seq<Seq<char>> {
    top.map_values(|e: (String, usize)| e.0@)
}

/// Tables listed in the coverage card.
pub const COVERAGE_TOP: usize = 6;

/// What the table coverage card shows.
pub struct TableCoverageView {
    /// Tables some writer writes.
    pub covered: usize,
    pub total_tables: usize,
    /// The most read tables, most read first.
    pub top: Vec<(String, usize)>,
    /// The largest read count among `top`, 1 when there is none.
    pub max_reads: usize,
}

/// Which tables are written, and which are read the most.
pub fn table_coverage(
    tables: &[TableApiModel],
    writers: &[WriterApiModel],
    readers: &[ReaderApiModel],
) -> (r: TableCoverageView)
    ensures
        r.covered == covered_count(tables@, written_tables(writers@)),
        r.total_tables == tables.len(),
        is_top_reads(read_tables(readers@), r.top@, COVERAGE_TOP as nat),
        r.top@.len() == 0 ==> r.max_reads == 1,
        r.top@.len() > 0 ==> r.max_reads == r.top@[0].1,
        forall|p: int| 0 <= p < r.top@.len() ==> #[trigger] r.top@[p].1 <= r.max_reads,
{
    let mut written: Vec<String> = Vec::new();
    let mut i: usize = 0;
    while i < writers.len()
        invariant
            i <= writers.len(),
            views(written@) == written_tables(writers@.subrange(0, i as int)),
        decreases writers.len() - i,
    {
        append_strings(&mut written, &writers[i].tables);
        proof {
            assert(writers@.subrange(0, i + 1).drop_last() =~= writers@.subrange(0, i as int));
        }
        i = i + 1;
    }
    proof {
        assert(writers@.subrange(0, writers@.len() as int) =~= writers@);
    }
    let mut covered: usize = 0;
    let mut k: usize = 0;
    while k < tables.len()
        invariant
            k <= tables.len(),
            views(written@) == written_tables(writers@),
            covered == covered_count(tables@.subrange(0, k as int), views(written@)),
        decreases tables.len() - k,
    {
        proof {
            assert(tables@.subrange(0, k + 1).drop_last() =~= tables@.subrange(0, k as int));
            lemma_covered_le(tables@.subrange(0, k as int), views(written@));
        }
        if contains_str(&written, tables[k].name.as_str()) {
            covered = covered + 1;
        }
        k = k + 1;
    }
    proof {
        assert(tables@.subrange(0, tables@.len() as int) =~= tables@);
    }
    let mut reads: Vec<String> = Vec::new();
    let mut j: usize = 0;
    while j < readers.len()
        invariant
            j <= readers.len(),
            views(reads@) == read_tables(readers@.subrange(0, j as int)),
        decreases readers.len() - j,
    {
        append_strings(&mut reads, &readers[j].tables);
        proof {
            assert(readers@.subrange(0, j + 1).drop_last() =~= readers@.subrange(0, j as int));
        }
        j = j + 1;
    }
    proof {
        assert(readers@.subrange(0, readers@.len() as int) =~= readers@);
    }
    let (keys, counts) = tally(&reads);
    let order = rank(&keys, &counts, false, COVERAGE_TOP);
    let ghost rs = views(reads@);
    let ghost ks = views(keys@);
    proof {
        lemma_tally_len(rs, ks, counts@);
    }
    let mut top: Vec<(String, usize)> = Vec::new();
    let mut p: usize = 0;
    while p < order.len()
        invariant
            p <= order.len(),
            top.len() == p,
            ks == views(keys@),
            rs == views(reads@),
            keys.len() == counts.len(),
            is_ranking(ks, counts@, false, keys.len() as int, order@),
            is_tally(rs, ks, counts@),
            forall|q: int| 0 <= q < p ==> #[trigger] top@[q].0@ == ks[order@[q] as int],
            forall|q: int| 0 <= q < p ==> #[trigger] top@[q].1 == counts@[order@[q] as int],
        decreases order.len() - p,
    {
        let idx = order[p];
        top.push((keys[idx].clone(), counts[idx]));
        p = p + 1;
    }
    proof {
        let n = keys.len() as int;
        assert forall|q: int| 0 <= q < top@.len() implies rs.contains(#[trigger] top@[q].0@) by {
            assert(ks.contains(ks[order@[q] as int]));
        }
        assert forall|a: int, b: int| 0 <= a < b < top@.len() implies #[trigger] top@[a].0@
            != #[trigger] top@[b].0@ by {
            assert(order@[a] != order@[b]);
        }
        assert forall|a: int, b: int| 0 <= a < b < top@.len() implies #[trigger] top@[a].1
            >= #[trigger] top@[b].1 by {
            assert(outranks(ks, counts@, false, order@[a] as int, order@[b] as int));
        }
        assert forall|a: int, x: Seq<char>|
            #![trigger top@[a], occurrences(rs, x)]
            0 <= a < top@.len() && rs.contains(x) && !top_names(top@).contains(x) implies occurrences(
                rs,
                x,
            ) <= top@[a].1 by {
            assert(ks.contains(x));
            let m = choose|m: int| 0 <= m < ks.len() && ks[m] == x;
            assert(!order@.contains(m as usize)) by {
                if order@.contains(m as usize) {
                    let q = choose|q: int| 0 <= q < order@.len() && order@[q] == m as usize;
                    assert(top@[q].0@ == x);
                    assert(top_names(top@)[q] == x);
                }
            }
            assert(outranks(ks, counts@, false, order@[a] as int, m));
        }
    }
    let max_reads = if top.len() == 0 {
        1
    } else {
        top[0].1
    };
    proof {
        assert forall|q: int| 0 <= q < top@.len() implies #[trigger] top@[q].1 <= max_reads by {
            if q > 0 {
                assert(top@[0].1 >= top@[q].1);
            }
        }
    }
    TableCoverageView { covered, total_tables: tables.len(), top, max_reads }
}

} // verus!
