//! Static code tables: read-only mappings from known raw values to short
//! categorical codes. A lookup miss yields the empty string, never an error,
//! so unknown values degrade to a blank cell. Each constructor's contract
//! pins the table's exact contents.

use vstd::prelude::*;

use crate::bytes::bytes_eq;
use crate::bytes::copy_bytes;
use vstd::pervasive::VecAdditionalExecFns;

verus! {

/// A read-only mapping from raw values to short codes.
pub struct CodeTable {
    pub entries: Vec<(Vec<u8>, Vec<u8>)>,
}

impl View for CodeTable {
    type V = Seq<(Seq<u8>, Seq<u8>)>;

    open spec fn view(&self) -> Seq<(Seq<u8>, Seq<u8>)> {
        Seq::new(self.entries@.len(), |i: int| (self.entries@[i].0@, self.entries@[i].1@))
    }
}

/// The code of `value` in `entries`: the code of the first entry whose raw
/// value matches, or the empty string when none does.
pub open spec fn lookup_spec(entries: Seq<(Seq<u8>, Seq<u8>)>, value: Seq<u8>) -> Seq<u8>
    decreases entries.len(),
{
    if entries.len() == 0 {
        Seq::empty()
    } else if entries[0].0 == value {
        entries[0].1
    } else {
        lookup_spec(entries.subrange(1, entries.len() as int), value)
    }
}

proof fn lemma_lookup_skip_step(entries: Seq<(Seq<u8>, Seq<u8>)>, value: Seq<u8>, i: int)
    requires
        0 <= i < entries.len(),
        entries[i].0 != value,
    ensures
        lookup_spec(entries.subrange(i, entries.len() as int), value) == lookup_spec(
            entries.subrange(i + 1, entries.len() as int),
            value,
        ),
{
    let tail = entries.subrange(i, entries.len() as int);
    assert(tail[0] == entries[i]);
    assert(tail.subrange(1, tail.len() as int) =~= entries.subrange(i + 1, entries.len() as int));
}

impl CodeTable {
    /// No two entries share a raw value, so the first-match reading of
    /// `lookup_spec` coincides with map lookup.
    pub open spec fn wf(self) -> bool {
        forall|i: int, j: int| 0 <= i < j < self@.len() ==> self@[i].0 != self@[j].0
    }

    /// Look a raw value up; a miss yields the empty string.
    pub fn lookup(&self, value: &[u8]) -> (r: Vec<u8>)
        ensures
            r@ == lookup_spec(self@, value@),
    {
        let n = self.entries.len();
        let mut i: usize = 0;
        assert(self@.subrange(0, n as int) =~= self@);
        while i < n
            invariant
                n == self.entries@.len(),
                self@.len() == n,
                i <= n,
                lookup_spec(self@, value@) == lookup_spec(
                    self@.subrange(i as int, n as int),
                    value@,
                ),
            decreases n - i,
        {
            if bytes_eq(value, &self.entries[i].0) {
                assert(self@[i as int].0 == value@);
                assert(self@.subrange(i as int, n as int)[0] == self@[i as int]);
                return copy_bytes(self.entries[i].1.as_slice());
            }
            proof {
                assert(self@[i as int].0 != value@);
                lemma_lookup_skip_step(self@, value@, i as int);
            }
            i = i + 1;
        }
        assert(self@.subrange(n as int, n as int) =~= Seq::<(Seq<u8>, Seq<u8>)>::empty());
        Vec::new()
    }
}

/// The decimal digits of `n`, most significant first.
pub open spec fn dec_spec(n: nat) -> Seq<u8>
    decreases n,
{
    if n < 10 {
        seq![(48 + n) as u8]
    } else {
        dec_spec(n / 10).push((48 + n % 10) as u8)
    }
}

/// Render `n` in decimal.
pub fn dec_of(n: usize) -> (r: Vec<u8>)
    ensures
        r@ == dec_spec(n as nat),
    decreases n,
{
    if n < 10 {
        let d: u8 = 48 + (n as u8);
        let v: Vec<u8> = vec![d];
        assert(v@ =~= dec_spec(n as nat));
        v
    } else {
        let mut r = dec_of(n / 10);
        let d: u8 = 48 + ((n % 10) as u8);
        r.push(d);
        r
    }
}

/// The outcome codes, keyed by the full result string.
pub open spec fn outcome_pairs() -> Seq<(Seq<u8>, Seq<u8>)> {
    seq![
        (seq![49u8, 45u8, 48u8], seq![49u8]),
        (seq![48u8, 45u8, 49u8], seq![50u8]),
        (seq![49u8, 47u8, 50u8, 45u8, 49u8, 47u8, 50u8], seq![51u8]),
        (seq![42u8], seq![48u8]),
    ]
}

/// The outcome codes, keyed by the full result string.
pub fn outcome_table() -> (t: CodeTable)
    ensures
        t@ == outcome_pairs(),
        t.wf(),
{
    let mut entries: Vec<(Vec<u8>, Vec<u8>)> = Vec::new();
    entries.push((vec![49u8, 45u8, 48u8], vec![49u8]));
    entries.push((vec![48u8, 45u8, 49u8], vec![50u8]));
    entries.push((vec![49u8, 47u8, 50u8, 45u8, 49u8, 47u8, 50u8], vec![51u8]));
    entries.push((vec![42u8], vec![48u8]));
    let t = CodeTable { entries };
    proof {
        assert(t@[0].0 =~= outcome_pairs()[0].0);
        assert(t@[0].1 =~= outcome_pairs()[0].1);
        assert(t@[1].0 =~= outcome_pairs()[1].0);
        assert(t@[1].1 =~= outcome_pairs()[1].1);
        assert(t@[2].0 =~= outcome_pairs()[2].0);
        assert(t@[2].1 =~= outcome_pairs()[2].1);
        assert(t@[3].0 =~= outcome_pairs()[3].0);
        assert(t@[3].1 =~= outcome_pairs()[3].1);
        assert(t@ =~= outcome_pairs());
        assert(t.wf());
    }
    t
}

/// The player-title codes.
pub open spec fn title_pairs() -> Seq<(Seq<u8>, Seq<u8>)> {
    seq![
        (seq![71u8, 77u8], seq![49u8]),
        (seq![87u8, 71u8, 77u8], seq![50u8]),
        (seq![73u8, 77u8], seq![51u8]),
        (seq![87u8, 73u8, 77u8], seq![52u8]),
        (seq![70u8, 77u8], seq![53u8]),
        (seq![87u8, 70u8, 77u8], seq![54u8]),
        (seq![78u8, 77u8], seq![55u8]),
        (seq![67u8, 77u8], seq![56u8]),
        (seq![87u8, 67u8, 77u8], seq![57u8]),
        (seq![87u8, 78u8, 77u8], seq![49u8, 48u8]),
        (seq![76u8, 77u8], seq![49u8, 49u8]),
        (seq![66u8, 79u8, 84u8], seq![49u8, 50u8]),
    ]
}

/// The player-title codes.
pub fn title_table() -> (t: CodeTable)
    ensures
        t@ == title_pairs(),
        t.wf(),
{
    let mut entries: Vec<(Vec<u8>, Vec<u8>)> = Vec::new();
    entries.push((vec![71u8, 77u8], vec![49u8]));
    entries.push((vec![87u8, 71u8, 77u8], vec![50u8]));
    entries.push((vec![73u8, 77u8], vec![51u8]));
    entries.push((vec![87u8, 73u8, 77u8], vec![52u8]));
    entries.push((vec![70u8, 77u8], vec![53u8]));
    entries.push((vec![87u8, 70u8, 77u8], vec![54u8]));
    entries.push((vec![78u8, 77u8], vec![55u8]));
    entries.push((vec![67u8, 77u8], vec![56u8]));
    entries.push((vec![87u8, 67u8, 77u8], vec![57u8]));
    entries.push((vec![87u8, 78u8, 77u8], vec![49u8, 48u8]));
    entries.push((vec![76u8, 77u8], vec![49u8, 49u8]));
    entries.push((vec![66u8, 79u8, 84u8], vec![49u8, 50u8]));
    let t = CodeTable { entries };
    proof {
        assert(t@[0].0 =~= title_pairs()[0].0);
        assert(t@[0].1 =~= title_pairs()[0].1);
        assert(t@[1].0 =~= title_pairs()[1].0);
        assert(t@[1].1 =~= title_pairs()[1].1);
        assert(t@[2].0 =~= title_pairs()[2].0);
        assert(t@[2].1 =~= title_pairs()[2].1);
        assert(t@[3].0 =~= title_pairs()[3].0);
        assert(t@[3].1 =~= title_pairs()[3].1);
        assert(t@[4].0 =~= title_pairs()[4].0);
        assert(t@[4].1 =~= title_pairs()[4].1);
        assert(t@[5].0 =~= title_pairs()[5].0);
        assert(t@[5].1 =~= title_pairs()[5].1);
        assert(t@[6].0 =~= title_pairs()[6].0);
        assert(t@[6].1 =~= title_pairs()[6].1);
        assert(t@[7].0 =~= title_pairs()[7].0);
        assert(t@[7].1 =~= title_pairs()[7].1);
        assert(t@[8].0 =~= title_pairs()[8].0);
        assert(t@[8].1 =~= title_pairs()[8].1);
        assert(t@[9].0 =~= title_pairs()[9].0);
        assert(t@[9].1 =~= title_pairs()[9].1);
        assert(t@[10].0 =~= title_pairs()[10].0);
        assert(t@[10].1 =~= title_pairs()[10].1);
        assert(t@[11].0 =~= title_pairs()[11].0);
        assert(t@[11].1 =~= title_pairs()[11].1);
        assert(t@ =~= title_pairs());
        assert(t.wf());
    }
    t
}

/// The termination-reason codes.
pub open spec fn ending_pairs() -> Seq<(Seq<u8>, Seq<u8>)> {
    seq![
        (seq![78u8, 111u8, 114u8, 109u8, 97u8, 108u8], seq![49u8]),
        (seq![84u8, 105u8, 109u8, 101u8, 32u8, 102u8, 111u8, 114u8, 102u8, 101u8, 105u8, 116u8], seq![50u8]),
        (seq![65u8, 98u8, 97u8, 110u8, 100u8, 111u8, 110u8, 101u8, 100u8], seq![51u8]),
        (seq![82u8, 117u8, 108u8, 101u8, 115u8, 32u8, 105u8, 110u8, 102u8, 114u8, 97u8, 99u8, 116u8, 105u8, 111u8, 110u8], seq![52u8]),
        (seq![85u8, 110u8, 116u8, 101u8, 114u8, 109u8, 105u8, 110u8, 97u8, 116u8, 101u8, 100u8], seq![53u8]),
    ]
}

/// The termination-reason codes.
pub fn ending_table() -> (t: CodeTable)
    ensures
        t@ == ending_pairs(),
        t.wf(),
{
    let mut entries: Vec<(Vec<u8>, Vec<u8>)> = Vec::new();
    entries.push((vec![78u8, 111u8, 114u8, 109u8, 97u8, 108u8], vec![49u8]));
    entries.push((vec![84u8, 105u8, 109u8, 101u8, 32u8, 102u8, 111u8, 114u8, 102u8, 101u8, 105u8, 116u8], vec![50u8]));
    entries.push((vec![65u8, 98u8, 97u8, 110u8, 100u8, 111u8, 110u8, 101u8, 100u8], vec![51u8]));
    entries.push((vec![82u8, 117u8, 108u8, 101u8, 115u8, 32u8, 105u8, 110u8, 102u8, 114u8, 97u8, 99u8, 116u8, 105u8, 111u8, 110u8], vec![52u8]));
    entries.push((vec![85u8, 110u8, 116u8, 101u8, 114u8, 109u8, 105u8, 110u8, 97u8, 116u8, 101u8, 100u8], vec![53u8]));
    let t = CodeTable { entries };
    proof {
        assert(t@[0].0 =~= ending_pairs()[0].0);
        assert(t@[0].1 =~= ending_pairs()[0].1);
        assert(t@[1].0 =~= ending_pairs()[1].0);
        assert(t@[1].1 =~= ending_pairs()[1].1);
        assert(t@[2].0 =~= ending_pairs()[2].0);
        assert(t@[2].1 =~= ending_pairs()[2].1);
        assert(t@[3].0 =~= ending_pairs()[3].0);
        assert(t@[3].1 =~= ending_pairs()[3].1);
        assert(t@[4].0 =~= ending_pairs()[4].0);
        assert(t@[4].1 =~= ending_pairs()[4].1);
        assert(t@ =~= ending_pairs());
        assert(t.wf());
    }
    t
}


/// The key of the opening class with index `k`: a letter for `k / 100`, then
/// the two decimal digits of `k % 100`.
pub open spec fn opening_key(k: int) -> Seq<u8> {
    seq![(65 + k / 100) as u8, (48 + (k / 10) % 10) as u8, (48 + k % 10) as u8]
}

/// The opening table's pairs: each class `A00` through `E99` maps to its
/// decimal index, `0` through `499`.
pub open spec fn opening_pairs() -> Seq<(Seq<u8>, Seq<u8>)> {
    Seq::new(500, |k: int| (opening_key(k), dec_spec(k as nat)))
}

/// The opening-classification codes.
pub fn opening_table() -> (t: CodeTable)
    ensures
        t@ == opening_pairs(),
        t.wf(),
{
    let mut entries: Vec<(Vec<u8>, Vec<u8>)> = Vec::new();
    let mut k: usize = 0;
    while k < 500
        invariant
            k <= 500,
            entries@.len() == k,
            forall|j: int|
                0 <= j < k ==> entries@[j].0@ == opening_key(j) && entries@[j].1@ == dec_spec(
                    j as nat,
                ),
        decreases 500 - k,
    {
        let mut key: Vec<u8> = Vec::new();
        key.push(65 + ((k / 100) as u8));
        key.push(48 + (((k / 10) % 10) as u8));
        key.push(48 + ((k % 10) as u8));
        assert(key@ =~= opening_key(k as int));
        let code = dec_of(k);
        entries.push((key, code));
        k = k + 1;
    }
    let t = CodeTable { entries };
    proof {
        assert(t@ =~= opening_pairs());
        lemma_opening_keys_distinct();
        assert(t.wf());
    }
    t
}

/// Distinct indices give distinct opening keys: the three digit positions
/// together determine the index.
proof fn lemma_opening_keys_distinct()
    ensures
        forall|i: int, j: int| 0 <= i < j < 500 ==> opening_key(i) != opening_key(j),
{
    assert forall|i: int, j: int| 0 <= i < j < 500 implies opening_key(i) != opening_key(j) by {
        if opening_key(i) == opening_key(j) {
            assert(opening_key(i)[0] == opening_key(j)[0]);
            assert(opening_key(i)[1] == opening_key(j)[1]);
            assert(opening_key(i)[2] == opening_key(j)[2]);
            assert(i / 100 == j / 100);
            assert((i / 10) % 10 == (j / 10) % 10);
            assert(i % 10 == j % 10);
            lemma_digits_determine(i);
            lemma_digits_determine(j);
        }
    }
}

/// An index below 1000 is its three decimal digits recombined.
proof fn lemma_digits_determine(i: int)
    requires
        0 <= i < 1000,
    ensures
        i == 100 * (i / 100) + 10 * ((i / 10) % 10) + i % 10,
{
    assert(i == 100 * (i / 100) + 10 * ((i / 10) % 10) + i % 10) by (nonlinear_arith)
        requires
            0 <= i < 1000,
    ;
}

/// The indices of the placeholder byte in `s`, in order.
pub open spec fn empties_spec(s: Seq<u8>) -> Seq<int>
    decreases s.len(),
{
    if s.len() == 0 {
        Seq::empty()
    } else if s.last() == 46 {
        empties_spec(s.drop_last()).push(s.len() - 1)
    } else {
        empties_spec(s.drop_last())
    }
}

/// The knight placement pair with index `p` under the standard numbering.
pub open spec fn spec_knight_pair(p: int) -> (int, int) {
    if p == 0 {
        (0, 1)
    } else if p == 1 {
        (0, 2)
    } else if p == 2 {
        (0, 3)
    } else if p == 3 {
        (0, 4)
    } else if p == 4 {
        (1, 2)
    } else if p == 5 {
        (1, 3)
    } else if p == 6 {
        (1, 4)
    } else if p == 7 {
        (2, 3)
    } else if p == 8 {
        (2, 4)
    } else {
        (3, 4)
    }
}

/// The first rank of starting position `n` under the standard numbering:
/// bishops from the two low base-4 digits, the queen from the next base-6
/// digit counted over the free squares, the knights from the final
/// combination index, then rook, king, rook on what remains.
pub open spec fn rank_of(n: int) -> Seq<u8> {
    let b1 = n % 4;
    let m1 = n / 4;
    let b2 = m1 % 4;
    let m2 = m1 / 4;
    let q = m2 % 6;
    let p = m2 / 6;
    let r0 = Seq::new(8, |i: int| 46u8).update(b1 * 2 + 1, 98).update(b2 * 2, 98);
    let e1 = empties_spec(r0);
    let r1 = if q < e1.len() {
        r0.update(e1[q], 113)
    } else {
        r0
    };
    let k = spec_knight_pair(p);
    let e2 = empties_spec(r1);
    let r2 = if k.1 < e2.len() {
        r1.update(e2[k.0], 110).update(e2[k.1], 110)
    } else {
        r1
    };
    let e3 = empties_spec(r2);
    if e3.len() == 3 {
        r2.update(e3[0], 114).update(e3[1], 107).update(e3[2], 114)
    } else {
        r2
    }
}

/// The starting-position table's pairs: the first rank of each of the 960
/// positions maps to the position's number in decimal.
pub open spec fn start_pairs() -> Seq<(Seq<u8>, Seq<u8>)> {
    Seq::new(960, |n: int| (rank_of(n), dec_spec(n as nat)))
}

/// The indices of the placeholder byte in `rank`, in order.
fn empties(rank: &Vec<u8>) -> (r: Vec<usize>)
    ensures
        r@.len() == empties_spec(rank@).len(),
        forall|j: int| 0 <= j < r@.len() ==> r@[j] as int == empties_spec(rank@)[j],
        forall|j: int| 0 <= j < r@.len() ==> r@[j] < rank@.len(),
{
    let mut r: Vec<usize> = Vec::new();
    let n = rank.len();
    let mut i: usize = 0;
    while i < n
        invariant
            n == rank@.len(),
            i <= n,
            r@.len() == empties_spec(rank@.subrange(0, i as int)).len(),
            forall|j: int|
                0 <= j < r@.len() ==> r@[j] as int == empties_spec(
                    rank@.subrange(0, i as int),
                )[j],
            forall|j: int| 0 <= j < r@.len() ==> r@[j] < i,
        decreases n - i,
    {
        proof {
            let pre = rank@.subrange(0, i as int);
            let nxt = rank@.subrange(0, i + 1);
            assert(nxt.drop_last() =~= pre);
            assert(nxt.last() == rank@[i as int]);
        }
        if rank[i] == 46 {
            r.push(i);
        }
        i = i + 1;
    }
    proof {
        assert(rank@.subrange(0, n as int) =~= rank@);
    }
    r
}

/// The knight placement pairs of the starting-position numbering, in order.
fn knight_pair(p: usize) -> (r: (usize, usize))
    ensures
        r.0 < r.1 < 5,
        r.0 as int == spec_knight_pair(p as int).0,
        r.1 as int == spec_knight_pair(p as int).1,
{
    if p == 0 {
        (0, 1)
    } else if p == 1 {
        (0, 2)
    } else if p == 2 {
        (0, 3)
    } else if p == 3 {
        (0, 4)
    } else if p == 4 {
        (1, 2)
    } else if p == 5 {
        (1, 3)
    } else if p == 6 {
        (1, 4)
    } else if p == 7 {
        (2, 3)
    } else if p == 8 {
        (2, 4)
    } else {
        (3, 4)
    }
}

/// The starting-position codes of variant games, keyed by the first rank of
/// the position, lowercase and without separators.
pub fn start_table() -> (t: CodeTable)
    ensures
        t@ == start_pairs(),
{
    let mut entries: Vec<(Vec<u8>, Vec<u8>)> = Vec::new();
    let mut n: usize = 0;
    while n < 960
        invariant
            n <= 960,
            entries@.len() == n,
            forall|j: int|
                0 <= j < n ==> (#[trigger] entries@[j]).0@ == rank_of(j)
                    && entries@[j].1@ == dec_spec(j as nat),
        decreases 960 - n,
    {
        let mut rank: Vec<u8> = vec![46u8, 46u8, 46u8, 46u8, 46u8, 46u8, 46u8, 46u8];
        let mut m = n;
        let b1 = m % 4;
        m = m / 4;
        let b2 = m % 4;
        m = m / 4;
        let q = m % 6;
        let pair = m / 6;
        rank.set(b1 * 2 + 1, 98);
        rank.set(b2 * 2, 98);
        proof {
            assert(rank@ =~= Seq::new(8, |i: int| 46u8).update(
                (n as int) % 4 * 2 + 1,
                98,
            ).update(((n as int) / 4) % 4 * 2, 98));
        }
        let e1 = empties(&rank);
        if q < e1.len() {
            rank.set(e1[q], 113);
        }
        let (k1, k2) = knight_pair(pair);
        let e2 = empties(&rank);
        if k2 < e2.len() {
            rank.set(e2[k1], 110);
            rank.set(e2[k2], 110);
        }
        let e3 = empties(&rank);
        if e3.len() == 3 {
            rank.set(e3[0], 114);
            rank.set(e3[1], 107);
            rank.set(e3[2], 114);
        }
        assert(rank@ == rank_of(n as int));
        entries.push((rank, dec_of(n)));
        proof {
            assert(entries@[n as int].0@ == rank_of(n as int));
            assert(entries@[n as int].1@ == dec_spec(n as nat));
            assert forall|j: int|
                0 <= j < n + 1 implies (#[trigger] entries@[j]).0@ == rank_of(j)
                    && entries@[j].1@ == dec_spec(j as nat) by {
                if j < n {
                    assert(entries@[j] == entries@.drop_last()[j]);
                }
            }
        }
        n = n + 1;
    }
    let t = CodeTable { entries };
    proof {
        assert(t@ =~= start_pairs());
    }
    t
}

/// The five static code tables, one per categorical field.
pub struct CodeTables {
    pub outcomes: CodeTable,
    pub titles: CodeTable,
    pub openings: CodeTable,
    pub endings: CodeTable,
    pub starts: CodeTable,
}

/// Whether `t` holds exactly the five standard tables' data.
pub open spec fn standard_tables(t: CodeTables) -> bool {
    &&& t.outcomes@ == outcome_pairs()
    &&& t.titles@ == title_pairs()
    &&& t.openings@ == opening_pairs()
    &&& t.endings@ == ending_pairs()
    &&& t.starts@ == start_pairs()
}

impl CodeTables {
    /// Build all five tables.
    pub fn new() -> (r: CodeTables)
        ensures
            standard_tables(r),
            r.outcomes.wf(),
            r.titles.wf(),
            r.openings.wf(),
            r.endings.wf(),
    {
        CodeTables {
            outcomes: outcome_table(),
            titles: title_table(),
            openings: opening_table(),
            endings: ending_table(),
            starts: start_table(),
        }
    }
}

} // verus!
