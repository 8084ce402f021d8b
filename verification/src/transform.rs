//! Per-field transforms: for a schema position, a field kind and a raw value,
//! the ordered list of output cells that the row carries at that position.
//! Verbatim mode always copies the raw value; minified mode rewrites the
//! well-known kinds, two of which expand into two cells.

use vstd::prelude::*;

use crate::bytes::bytes_eq;
use crate::bytes::copy_bytes;
use crate::bytes::copy_range;
use crate::names::FieldKind;
use crate::names::kind_of;
use crate::names::kind_of_name;
use crate::names::n_event;
use crate::names::n_white_elo;
use crate::names::name_event;
use crate::names::name_white_elo;
use crate::names::l_tournament;
use crate::names::l_game;
use crate::names::l_white_rating;
use crate::names::l_white_rating_provisional;
use crate::names::l_black_rating;
use crate::names::l_black_rating_provisional;
use crate::names::l_clock_initial_time;
use crate::names::l_clock_increment;
use crate::names::l_starting_position;
use crate::names::label_tournament;
use crate::names::label_game;
use crate::names::label_white_rating;
use crate::names::label_white_rating_provisional;
use crate::names::label_black_rating;
use crate::names::label_black_rating_provisional;
use crate::names::label_clock_initial_time;
use crate::names::label_clock_increment;
use crate::names::label_starting_position;
use crate::tables::CodeTables;
use crate::tables::lookup_spec;

verus! {

/// The sequence of views of a vector of cells.
pub open spec fn cells_view(r: Seq<Vec<u8>>) -> Seq<Seq<u8>> {
    Seq::new(r.len(), |i: int| r[i]@)
}

/// Whether `v` holds the byte `b`.
pub open spec fn contains_byte(v: Seq<u8>, b: u8) -> bool {
    exists|i: int| 0 <= i < v.len() && v[i] == b
}

/// The bytes after the last occurrence of `b` in `v`; all of `v` when `b`
/// does not occur.
pub open spec fn after_last(v: Seq<u8>, b: u8) -> Seq<u8>
    decreases v.len(),
{
    if v.len() == 0 {
        v
    } else if v.last() == b {
        Seq::empty()
    } else {
        after_last(v.drop_last(), b).push(v.last())
    }
}

/// The bytes before the first occurrence of `b` in `v`; all of `v` when `b`
/// does not occur.
pub open spec fn before_first(v: Seq<u8>, b: u8) -> Seq<u8>
    decreases v.len(),
{
    if v.len() == 0 {
        v
    } else if v.first() == b {
        Seq::empty()
    } else {
        seq![v.first()] + before_first(v.drop_first(), b)
    }
}

/// The bytes after the first occurrence of `b` in `v`; empty when `b` does
/// not occur.
pub open spec fn after_first(v: Seq<u8>, b: u8) -> Seq<u8>
    decreases v.len(),
{
    if v.len() == 0 {
        v
    } else if v.first() == b {
        v.drop_first()
    } else {
        after_first(v.drop_first(), b)
    }
}

/// When `i` is the last occurrence of `b`, what follows it is `after_last`.
pub proof fn lemma_after_last_at(v: Seq<u8>, b: u8, i: int)
    requires
        0 <= i < v.len(),
        v[i] == b,
        forall|j: int| i < j < v.len() ==> v[j] != b,
    ensures
        after_last(v, b) == v.subrange(i + 1, v.len() as int),
        contains_byte(v, b),
    decreases v.len(),
{
    if i == v.len() - 1 {
        assert(v.last() == b);
        assert(after_last(v, b) =~= v.subrange(i + 1, v.len() as int));
    } else {
        assert(v.last() != b);
        let d = v.drop_last();
        assert(forall|j: int| i < j < d.len() ==> d[j] != b);
        lemma_after_last_at(d, b, i);
        assert(after_last(v, b) =~= v.subrange(i + 1, v.len() as int));
    }
}

/// When `i` is the first occurrence of `b`, it parts `before_first` from
/// `after_first`.
pub proof fn lemma_first_at(v: Seq<u8>, b: u8, i: int)
    requires
        0 <= i < v.len(),
        v[i] == b,
        forall|j: int| 0 <= j < i ==> v[j] != b,
    ensures
        before_first(v, b) == v.subrange(0, i),
        after_first(v, b) == v.subrange(i + 1, v.len() as int),
        contains_byte(v, b),
    decreases v.len(),
{
    if i == 0 {
        assert(v.first() == b);
        assert(before_first(v, b) =~= v.subrange(0, 0));
        assert(after_first(v, b) =~= v.subrange(1, v.len() as int));
    } else {
        assert(v.first() != b);
        let d = v.drop_first();
        assert(d[i - 1] == b);
        assert(forall|j: int| 0 <= j < i - 1 ==> d[j] != b);
        lemma_first_at(d, b, i - 1);
        assert(before_first(v, b) =~= v.subrange(0, i));
        assert(after_first(v, b) =~= v.subrange(i + 1, v.len() as int));
    }
}

/// Without an occurrence of `b`, the splits keep or drop all of `v`.
pub proof fn lemma_no_byte(v: Seq<u8>, b: u8)
    requires
        forall|j: int| 0 <= j < v.len() ==> v[j] != b,
    ensures
        !contains_byte(v, b),
        before_first(v, b) == v,
        after_first(v, b) == Seq::<u8>::empty(),
        after_last(v, b) == v,
    decreases v.len(),
{
    if v.len() == 0 {
        assert(before_first(v, b) =~= v);
        assert(after_first(v, b) =~= Seq::<u8>::empty());
        assert(after_last(v, b) =~= v);
    } else {
        lemma_no_byte(v.drop_first(), b);
        assert(before_first(v, b) =~= v);
        let d = v.drop_last();
        assert(forall|j: int| 0 <= j < d.len() ==> d[j] != b);
        lemma_no_byte(d, b);
        assert(after_last(v, b) =~= v);
    }
}

/// The identifier a link field is reduced to: the segment after the last
/// path separator, or empty when the value holds no separator.
pub open spec fn link_id(v: Seq<u8>) -> Seq<u8> {
    if contains_byte(v, 47) {
        after_last(v, 47)
    } else {
        Seq::empty()
    }
}

/// The two cells a rating expands to: the value without a trailing
/// provisional marker, and `1` or `0` for whether the marker was there.
pub open spec fn rating_cells(v: Seq<u8>) -> Seq<Seq<u8>> {
    if v.len() > 0 && v.last() == 63 {
        seq![v.drop_last(), seq![49u8]]
    } else {
        seq![v, seq![48u8]]
    }
}

/// A rating delta with an explicit leading plus sign stripped.
pub open spec fn diff_cell(v: Seq<u8>) -> Seq<u8> {
    if v.len() > 0 && v.first() == 43 {
        v.drop_first()
    } else {
        v
    }
}

/// The two cells a time control splits into: initial time and increment.
/// A lone no-clock marker yields two empty cells; a missing separator
/// leaves the increment empty.
pub open spec fn clock_cells(v: Seq<u8>) -> Seq<Seq<u8>> {
    if before_first(v, 43) == seq![45u8] {
        seq![Seq::empty(), Seq::empty()]
    } else {
        seq![before_first(v, 43), after_first(v, 43)]
    }
}

/// The cells a field of kind `kind` produces in minified mode.
pub open spec fn minified_cells(
    kind: FieldKind,
    value: Seq<u8>,
    chess960: bool,
    tables: CodeTables,
) -> Seq<Seq<u8>> {
    match kind {
        FieldKind::Link => seq![link_id(value)],
        FieldKind::Outcome => seq![lookup_spec(tables.outcomes@, value)],
        FieldKind::Rating => rating_cells(value),
        FieldKind::RatingDiff => seq![diff_cell(value)],
        FieldKind::Title => seq![lookup_spec(tables.titles@, value)],
        FieldKind::Opening => seq![lookup_spec(tables.openings@, value)],
        FieldKind::Clock => clock_cells(value),
        FieldKind::Ending => seq![lookup_spec(tables.endings@, value)],
        FieldKind::Start => if chess960 {
            seq![lookup_spec(tables.starts@, before_first(value, 47))]
        } else {
            seq![value]
        },
        FieldKind::Plain => seq![value],
    }
}

/// The cells a field produces: the raw value in verbatim mode, the rewritten
/// cells in minified mode.
pub open spec fn field_cells(
    kind: FieldKind,
    value: Seq<u8>,
    minify: bool,
    chess960: bool,
    tables: CodeTables,
) -> Seq<Seq<u8>> {
    if minify {
        minified_cells(kind, value, chess960, tables)
    } else {
        seq![value]
    }
}

/// How many cells a field of kind `kind` occupies in a row.
pub open spec fn width(kind: FieldKind, minify: bool) -> int {
    if minify && (kind == FieldKind::Rating || kind == FieldKind::Clock) {
        2
    } else {
        1
    }
}

/// A field always produces exactly `width` cells, whatever its value: this
/// is what keeps every row's cell count equal to the header's.
pub proof fn lemma_field_cells_len(
    kind: FieldKind,
    value: Seq<u8>,
    minify: bool,
    chess960: bool,
    tables: CodeTables,
)
    ensures
        field_cells(kind, value, minify, chess960, tables).len() == width(kind, minify),
{
}

/// Find the first occurrence of `b` in `a`.
fn find_first(a: &[u8], b: u8) -> (r: Option<usize>)
    ensures
        match r {
            Some(i) => i < a@.len() && a@[i as int] == b && (forall|j: int|
                0 <= j < i ==> a@[j] != b),
            None => forall|j: int| 0 <= j < a@.len() ==> a@[j] != b,
        },
{
    let n = a.len();
    let mut i: usize = 0;
    while i < n
        invariant
            n == a@.len(),
            i <= n,
            forall|j: int| 0 <= j < i ==> a@[j] != b,
        decreases n - i,
    {
        if a[i] == b {
            return Some(i);
        }
        i = i + 1;
    }
    None
}

/// The trailing path segment of a link value, or empty without a separator.
pub fn link_id_of(value: &[u8]) -> (r: Vec<u8>)
    ensures
        r@ == link_id(value@),
{
    let n = value.len();
    let mut i: usize = n;
    while i > 0
        invariant
            i <= n,
            n == value@.len(),
            forall|j: int| i <= j < n ==> value@[j] != 47,
        decreases i,
    {
        if value[i - 1] == 47 {
            proof {
                lemma_after_last_at(value@, 47, i - 1);
            }
            return copy_range(value, i, n);
        }
        i = i - 1;
    }
    proof {
        lemma_no_byte(value@, 47);
    }
    Vec::new()
}

/// Split a time control into its initial-time and increment cells.
pub fn clock_of(value: &[u8]) -> (r: (Vec<u8>, Vec<u8>))
    ensures
        seq![r.0@, r.1@] == clock_cells(value@),
{
    let n = value.len();
    let (init, inc) = match find_first(value, 43) {
        Some(i) => {
            proof {
                lemma_first_at(value@, 43, i as int);
            }
            (copy_range(value, 0, i), copy_range(value, i + 1, n))
        },
        None => {
            proof {
                lemma_no_byte(value@, 43);
            }
            (copy_bytes(value), Vec::new())
        },
    };
    if init.len() == 1 && init[0] == 45 {
        assert(init@ =~= seq![45u8]);
        let r = (Vec::<u8>::new(), Vec::<u8>::new());
        assert(seq![r.0@, r.1@] =~~= clock_cells(value@));
        r
    } else {
        assert(init@ != seq![45u8]);
        let r = (init, inc);
        assert(seq![r.0@, r.1@] =~~= clock_cells(value@));
        r
    }
}

/// The cells written for one field: the raw value in verbatim mode, its
/// minified rewriting otherwise.
pub fn transcode_field(
    kind: FieldKind,
    value: &[u8],
    minify: bool,
    chess960: bool,
    tables: &CodeTables,
) -> (r: Vec<Vec<u8>>)
    ensures
        cells_view(r@) == field_cells(kind, value@, minify, chess960, *tables),
{
    let n = value.len();
    let r: Vec<Vec<u8>> = if !minify {
        vec![copy_bytes(value)]
    } else {
        match kind {
            FieldKind::Link => vec![link_id_of(value)],
            FieldKind::Outcome => vec![tables.outcomes.lookup(value)],
            FieldKind::Rating => {
                if n > 0 && value[n - 1] == 63 {
                    vec![copy_range(value, 0, n - 1), vec![49u8]]
                } else {
                    vec![copy_bytes(value), vec![48u8]]
                }
            },
            FieldKind::RatingDiff => {
                if n > 0 && value[0] == 43 {
                    vec![copy_range(value, 1, n)]
                } else {
                    vec![copy_bytes(value)]
                }
            },
            FieldKind::Title => vec![tables.titles.lookup(value)],
            FieldKind::Opening => vec![tables.openings.lookup(value)],
            FieldKind::Clock => {
                let (init, inc) = clock_of(value);
                vec![init, inc]
            },
            FieldKind::Ending => vec![tables.endings.lookup(value)],
            FieldKind::Start => {
                if chess960 {
                    let prefix = match find_first(value, 47) {
                        Some(i) => {
                            proof {
                                lemma_first_at(value@, 47, i as int);
                            }
                            copy_range(value, 0, i)
                        },
                        None => {
                            proof {
                                lemma_no_byte(value@, 47);
                            }
                            copy_bytes(value)
                        },
                    };
                    vec![tables.starts.lookup(prefix.as_slice())]
                } else {
                    vec![copy_bytes(value)]
                }
            },
            FieldKind::Plain => vec![copy_bytes(value)],
        }
    };
    proof {
        assert(cells_view(r@) =~~= field_cells(kind, value@, minify, chess960, *tables));
    }
    r
}

/// The header cells a schema position contributes: its name verbatim, or its
/// minified label or labels, matching the data rows' expansion positions.
pub open spec fn header_cells_at(name: Seq<u8>, minify: bool, chess960: bool) -> Seq<Seq<u8>> {
    if !minify {
        seq![name]
    } else {
        match kind_of(name) {
            FieldKind::Link => if name == n_event() {
                seq![l_tournament()]
            } else {
                seq![l_game()]
            },
            FieldKind::Rating => if name == n_white_elo() {
                seq![l_white_rating(), l_white_rating_provisional()]
            } else {
                seq![l_black_rating(), l_black_rating_provisional()]
            },
            FieldKind::Clock => seq![l_clock_initial_time(), l_clock_increment()],
            FieldKind::Start => if chess960 {
                seq![l_starting_position()]
            } else {
                seq![name]
            },
            _ => seq![name],
        }
    }
}

/// The header row's cell count at a position equals the data rows' there.
pub proof fn lemma_header_cells_len(name: Seq<u8>, minify: bool, chess960: bool)
    ensures
        header_cells_at(name, minify, chess960).len() == width(kind_of(name), minify),
{
}

/// The header cells of one schema position.
pub fn header_labels(name: &[u8], minify: bool, chess960: bool) -> (r: Vec<Vec<u8>>)
    ensures
        cells_view(r@) == header_cells_at(name@, minify, chess960),
{
    let r: Vec<Vec<u8>> = if !minify {
        vec![copy_bytes(name)]
    } else {
        match kind_of_name(name) {
            FieldKind::Link => {
                if bytes_eq(name, &name_event()) {
                    vec![label_tournament()]
                } else {
                    vec![label_game()]
                }
            },
            FieldKind::Rating => {
                if bytes_eq(name, &name_white_elo()) {
                    vec![label_white_rating(), label_white_rating_provisional()]
                } else {
                    vec![label_black_rating(), label_black_rating_provisional()]
                }
            },
            FieldKind::Clock => vec![label_clock_initial_time(), label_clock_increment()],
            FieldKind::Start => {
                if chess960 {
                    vec![label_starting_position()]
                } else {
                    vec![copy_bytes(name)]
                }
            },
            _ => vec![copy_bytes(name)],
        }
    };
    proof {
        assert(cells_view(r@) =~~= header_cells_at(name@, minify, chess960));
    }
    r
}

} // verus!
