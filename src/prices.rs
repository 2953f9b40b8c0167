//! Per-ticker price tables: bars ordered by timestamp and split into six
//! columns, and the capped list of tickers whose bars are wanted.

use vstd::prelude::*;
use vstd::multiset::Multiset;
use crate::table::{Table, TableError};

verus! {

/// How many tickers a run asks price history for, by default.
pub const DEFAULT_SYMBOL_CAP: usize = 25;

/// One price observation. The four prices are carried as the bit patterns of
/// their `f64` values, so that they come out exactly as they went in.
#[derive(Clone, Copy, Debug, PartialEq, Eq, Structural)]
pub struct PriceBar {
    /// Milliseconds since the epoch.
    pub timestamp: i64,
    pub open_bits: u64,
    pub high_bits: u64,
    pub low_bits: u64,
    pub close_bits: u64,
    pub volume: Option<u64>,
}

/// The six columns of one ticker's price history, row `k` of each belonging
/// to the same bar.
pub struct PriceTable {
    pub timestamp: Vec<i64>,
    pub open_bits: Vec<u64>,
    pub high_bits: Vec<u64>,
    pub low_bits: Vec<u64>,
    pub close_bits: Vec<u64>,
    pub volume: Vec<u64>,
}

/// `s` with `b` placed after every bar whose timestamp is at most `b`'s and
/// before the later ones that follow them.
pub open spec fn insert_by_time(s: Seq<PriceBar>, b: PriceBar) -> Seq<PriceBar>
    decreases s.len(),
{
    if s.len() == 0 {
        seq![b]
    } else if s.last().timestamp <= b.timestamp {
        s.push(b)
    } else {
        insert_by_time(s.drop_last(), b).push(s.last())
    }
}

/// The stable ordering of `s` by timestamp: bars with equal timestamps keep
/// their order in `s`.
pub open spec fn sort_by_time(s: Seq<PriceBar>) -> Seq<PriceBar>
    decreases s.len(),
{
    if s.len() == 0 {
        Seq::empty()
    } else {
        insert_by_time(sort_by_time(s.drop_last()), s.last())
    }
}

/// Timestamps never decrease along `s`.
pub open spec fn is_time_ordered(s: Seq<PriceBar>) -> bool {
    forall|i: int, j: int| 0 <= i < j < s.len() ==> s[i].timestamp <= s[j].timestamp
}

/// The volume of a bar, zero where it has none.
pub open spec fn volume_or_zero(b: PriceBar) -> u64 {
    match b.volume {
        Some(v) => v,
        None => 0,
    }
}

fn insert_bar(out: &mut Vec<PriceBar>, b: PriceBar)
    ensures
        final(out)@ == insert_by_time(old(out)@, b),
{
    let ghost s = old(out)@;
    let mut j: usize = out.len();
    assert(s.subrange(0, j as int) =~= s);
    assert(insert_by_time(s, b) + s.subrange(j as int, s.len() as int) =~= insert_by_time(s, b));
    while j > 0 && out[j - 1].timestamp > b.timestamp
        invariant
            out@ == s,
            j <= s.len(),
            insert_by_time(s, b) == insert_by_time(s.subrange(0, j as int), b) + s.subrange(j as int, s.len() as int),
        decreases j,
    {
        let ghost pre = s.subrange(0, j as int);
        assert(pre.drop_last() =~= s.subrange(0, j - 1));
        assert(s.subrange(j - 1, s.len() as int) =~= seq![s[j - 1]] + s.subrange(j as int, s.len() as int));
        assert(insert_by_time(pre, b) == insert_by_time(s.subrange(0, j - 1), b).push(s[j - 1]));
        assert(insert_by_time(s.subrange(0, j - 1), b).push(s[j - 1]) + s.subrange(j as int, s.len() as int)
            =~= insert_by_time(s.subrange(0, j - 1), b) + s.subrange(j - 1, s.len() as int));
        j = j - 1;
    }
    out.insert(j, b);
    if j == 0 {
        assert(out@ =~= seq![b] + s);
    } else {
        assert(insert_by_time(s.subrange(0, j as int), b) == s.subrange(0, j as int).push(b));
    }
    assert(out@ =~= insert_by_time(s.subrange(0, j as int), b) + s.subrange(j as int, s.len() as int));
}

/// `bars` in stable timestamp order.
pub fn sort_bars(bars: &Vec<PriceBar>) -> (r: Vec<PriceBar>)
    ensures
        r@ == sort_by_time(bars@),
{
    let mut out: Vec<PriceBar> = Vec::new();
    let mut i: usize = 0;
    while i < bars.len()
        invariant
            i <= bars@.len(),
            out@ == sort_by_time(bars@.subrange(0, i as int)),
        decreases bars@.len() - i,
    {
        let ghost next = bars@.subrange(0, i + 1);
        assert(next.drop_last() =~= bars@.subrange(0, i as int));
        insert_bar(&mut out, bars[i]);
        i = i + 1;
    }
    assert(bars@.subrange(0, bars@.len() as int) =~= bars@);
    out
}

/// The price table of one ticker: `bars` in stable timestamp order, split
/// into columns; a bar without a volume counts zero.
pub fn price_table(bars: &Vec<PriceBar>) -> (t: PriceTable)
    ensures
        t.timestamp@ == sort_by_time(bars@).map_values(|b: PriceBar| b.timestamp),
        t.open_bits@ == sort_by_time(bars@).map_values(|b: PriceBar| b.open_bits),
        t.high_bits@ == sort_by_time(bars@).map_values(|b: PriceBar| b.high_bits),
        t.low_bits@ == sort_by_time(bars@).map_values(|b: PriceBar| b.low_bits),
        t.close_bits@ == sort_by_time(bars@).map_values(|b: PriceBar| b.close_bits),
        t.volume@ == sort_by_time(bars@).map_values(|b: PriceBar| volume_or_zero(b)),
{
    let sorted = sort_bars(bars);
    let ghost s = sorted@;
    let mut t = PriceTable {
        timestamp: Vec::new(),
        open_bits: Vec::new(),
        high_bits: Vec::new(),
        low_bits: Vec::new(),
        close_bits: Vec::new(),
        volume: Vec::new(),
    };
    let mut k: usize = 0;
    while k < sorted.len()
        invariant
            s == sorted@,
            k <= s.len(),
            t.timestamp@ == s.subrange(0, k as int).map_values(|b: PriceBar| b.timestamp),
            t.open_bits@ == s.subrange(0, k as int).map_values(|b: PriceBar| b.open_bits),
            t.high_bits@ == s.subrange(0, k as int).map_values(|b: PriceBar| b.high_bits),
            t.low_bits@ == s.subrange(0, k as int).map_values(|b: PriceBar| b.low_bits),
            t.close_bits@ == s.subrange(0, k as int).map_values(|b: PriceBar| b.close_bits),
            t.volume@ == s.subrange(0, k as int).map_values(|b: PriceBar| volume_or_zero(b)),
        decreases s.len() - k,
    {
        let b = sorted[k];
        t.timestamp.push(b.timestamp);
        t.open_bits.push(b.open_bits);
        t.high_bits.push(b.high_bits);
        t.low_bits.push(b.low_bits);
        t.close_bits.push(b.close_bits);
        let v: u64 = match b.volume {
            Some(v) => v,
            None => 0,
        };
        t.volume.push(v);
        let ghost next = s.subrange(0, k + 1);
        assert(next =~= s.subrange(0, k as int).push(b));
        assert(t.timestamp@ =~= next.map_values(|b: PriceBar| b.timestamp));
        assert(t.open_bits@ =~= next.map_values(|b: PriceBar| b.open_bits));
        assert(t.high_bits@ =~= next.map_values(|b: PriceBar| b.high_bits));
        assert(t.low_bits@ =~= next.map_values(|b: PriceBar| b.low_bits));
        assert(t.close_bits@ =~= next.map_values(|b: PriceBar| b.close_bits));
        assert(t.volume@ =~= next.map_values(|b: PriceBar| volume_or_zero(b)));
        k = k + 1;
    }
    assert(s.subrange(0, s.len() as int) =~= s);
    t
}

/// The name of the column that holds ticker symbols.
pub open spec fn symbol_column_name() -> Seq<char> {
    seq!['S', 'y', 'm', 'b', 'o', 'l']
}

/// The first `cap` values of the first column named `Symbol` (all of them
/// when there are fewer), in column order; `MissingColumn` when there is no
/// such column.
pub fn symbols_to_fetch(table: &Table, cap: usize) -> (r: Result<Vec<String>, TableError>)
    ensures
        match r {
            Err(e) => e == TableError::MissingColumn
                && forall|i: int| 0 <= i < table@.len() ==> #[trigger] table@[i].0 != symbol_column_name(),
            Ok(v) => exists|i: int|
                0 <= i < table@.len() && table@[i].0 == symbol_column_name()
                    && (forall|j: int| 0 <= j < i ==> #[trigger] table@[j].0 != symbol_column_name())
                    && v.deep_view() == table@[i].1.take(
                        if cap < table@[i].1.len() { cap as int } else { table@[i].1.len() as int },
                    ),
        },
{
    proof {
        reveal_strlit("Symbol");
    }
    assert("Symbol"@ =~= symbol_column_name());
    match table.column("Symbol") {
        None => Err(TableError::MissingColumn),
        Some(col) => {
            let n: usize = if cap < col.len() { cap } else { col.len() };
            let mut out: Vec<String> = Vec::new();
            let mut k: usize = 0;
            while k < n
                invariant
                    n <= col@.len(),
                    k <= n,
                    out@.len() == k,
                    forall|m: int| 0 <= m < k ==> (#[trigger] out@[m])@ == col@[m]@,
                decreases n - k,
            {
                out.push(col[k].clone());
                k = k + 1;
            }
            assert(out.deep_view() =~= col.deep_view().take(n as int));
            Ok(out)
        },
    }
}

proof fn lemma_insert_contents(s: Seq<PriceBar>, b: PriceBar)
    ensures
        insert_by_time(s, b).to_multiset() == s.to_multiset().insert(b),
        insert_by_time(s, b).len() == s.len() + 1,
        forall|k: int| 0 <= k < s.len() + 1 ==> #[trigger] insert_by_time(s, b)[k] == b
            || s.contains(insert_by_time(s, b)[k]),
    decreases s.len(),
{
    broadcast use vstd::seq_lib::group_to_multiset_ensures;
    if s.len() == 0 {
        assert(insert_by_time(s, b) =~= seq![b]);
        assert(seq![b] =~= Seq::<PriceBar>::empty().push(b));
    } else if s.last().timestamp <= b.timestamp {
    } else {
        let front = s.drop_last();
        lemma_insert_contents(front, b);
        assert(s =~= front.push(s.last()));
        let r = insert_by_time(s, b);
        assert forall|k: int| 0 <= k < s.len() + 1 implies #[trigger] r[k] == b || s.contains(r[k]) by {
            if k < s.len() {
                let x = insert_by_time(front, b)[k];
                if x != b {
                    let w = choose|w: int| 0 <= w < front.len() && front[w] == x;
                    assert(s[w] == x);
                }
            } else {
                assert(s[s.len() - 1] == r[k]);
            }
        }
        assert(r.to_multiset() =~= s.to_multiset().insert(b));
    }
}

proof fn lemma_insert_ordered(s: Seq<PriceBar>, b: PriceBar)
    requires
        is_time_ordered(s),
    ensures
        is_time_ordered(insert_by_time(s, b)),
    decreases s.len(),
{
    if s.len() == 0 {
    } else if s.last().timestamp <= b.timestamp {
    } else {
        let front = s.drop_last();
        lemma_insert_ordered(front, b);
        lemma_insert_contents(front, b);
        let r0 = insert_by_time(front, b);
        assert forall|k: int| 0 <= k < r0.len() implies #[trigger] r0[k].timestamp <= s.last().timestamp by {
            if r0[k] != b {
                let w = choose|w: int| 0 <= w < front.len() && front[w] == r0[k];
                assert(s[w] == r0[k]);
            }
        }
    }
}

/// Ordering bars by time leaves their timestamps non-decreasing and keeps
/// every bar exactly as often as it came: none is dropped or duplicated.
pub proof fn lemma_sort_by_time_is_ordered_permutation(bars: Seq<PriceBar>)
    ensures
        is_time_ordered(sort_by_time(bars)),
        sort_by_time(bars).to_multiset() == bars.to_multiset(),
    decreases bars.len(),
{
    broadcast use vstd::seq_lib::group_to_multiset_ensures;
    if bars.len() > 0 {
        let front = bars.drop_last();
        lemma_sort_by_time_is_ordered_permutation(front);
        lemma_insert_ordered(sort_by_time(front), bars.last());
        lemma_insert_contents(sort_by_time(front), bars.last());
        assert(bars =~= front.push(bars.last()));
    } else {
        assert(bars.to_multiset() =~= Multiset::empty());
    }
}

} // verus!
