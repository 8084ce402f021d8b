//! The format's cross-cutting laws: every row has the header's cell count,
//! cells stand in schema order at fixed positions, missing fields leave
//! their positions empty without shifting the rest, and conversion is a
//! function of the input and the configuration alone.

use vstd::prelude::*;

use crate::names::kind_of;
use crate::transform::after_first;
use crate::transform::before_first;
use crate::transform::contains_byte;
use crate::transform::lemma_first_at;
use crate::tables::CodeTables;
use crate::tables::standard_tables;
use crate::transform::field_cells;
use crate::transform::header_cells_at;
use crate::transform::lemma_field_cells_len;
use crate::transform::lemma_header_cells_len;
use crate::transform::width;
use crate::writer::header_row_bytes;
use crate::writer::header_partial;
use crate::writer::join_cells;
use crate::writer::lemma_join_concat;
use crate::writer::partial_row;
use crate::writer::row_bytes;
use crate::writer::value_at;

verus! {

/// The concatenation of `f(0)`, ..., `f(k - 1)`.
pub open spec fn cat_upto(f: spec_fn(int) -> Seq<Seq<u8>>, k: int) -> Seq<Seq<u8>>
    decreases k,
{
    if k <= 0 {
        Seq::empty()
    } else {
        cat_upto(f, k - 1) + f(k - 1)
    }
}

/// The cell list each schema position of a data row produces.
pub open spec fn row_fn(
    tags: Seq<Seq<u8>>,
    rec: Seq<Option<Seq<u8>>>,
    minify: bool,
    chess960: bool,
    tables: CodeTables,
) -> spec_fn(int) -> Seq<Seq<u8>> {
    |i: int| field_cells(kind_of(tags[i]), value_at(rec, i), minify, chess960, tables)
}

/// The cell list each schema position of the header row produces.
pub open spec fn header_fn(tags: Seq<Seq<u8>>, minify: bool, chess960: bool) -> spec_fn(
    int,
) -> Seq<Seq<u8>> {
    |i: int| header_cells_at(tags[i], minify, chess960)
}

/// All cells of a record's row, in schema order.
pub open spec fn record_cells(
    tags: Seq<Seq<u8>>,
    rec: Seq<Option<Seq<u8>>>,
    minify: bool,
    chess960: bool,
    tables: CodeTables,
) -> Seq<Seq<u8>> {
    cat_upto(row_fn(tags, rec, minify, chess960, tables), tags.len() as int)
}

/// All cells of the header row.
pub open spec fn header_cells(tags: Seq<Seq<u8>>, minify: bool, chess960: bool) -> Seq<Seq<u8>> {
    cat_upto(header_fn(tags, minify, chess960), tags.len() as int)
}

/// The total cell count of the first `k` schema positions.
pub open spec fn width_upto(tags: Seq<Seq<u8>>, minify: bool, k: int) -> int
    decreases k,
{
    if k <= 0 {
        0
    } else {
        width_upto(tags, minify, k - 1) + width(kind_of(tags[k - 1]), minify)
    }
}

/// The cell index at which schema position `i` starts in a row.
pub open spec fn out_pos(tags: Seq<Seq<u8>>, minify: bool, i: int) -> int {
    width_upto(tags, minify, i)
}

/// Whether `f` yields the row widths of the schema's positions.
pub open spec fn fits_widths(
    f: spec_fn(int) -> Seq<Seq<u8>>,
    tags: Seq<Seq<u8>>,
    minify: bool,
    k: int,
) -> bool {
    forall|i: int| 0 <= i < k ==> (#[trigger] f(i)).len() == width(kind_of(tags[i]), minify)
}

proof fn lemma_cat_upto_len(f: spec_fn(int) -> Seq<Seq<u8>>, tags: Seq<Seq<u8>>, minify: bool, k: int)
    requires
        fits_widths(f, tags, minify, k),
    ensures
        cat_upto(f, k).len() == width_upto(tags, minify, k),
        k >= 0 ==> cat_upto(f, k).len() >= k,
    decreases k,
{
    if k > 0 {
        lemma_cat_upto_len(f, tags, minify, k - 1);
    }
}

proof fn lemma_width_upto_mono(tags: Seq<Seq<u8>>, minify: bool, i: int, k: int)
    requires
        0 <= i < k,
    ensures
        width_upto(tags, minify, i) + width(kind_of(tags[i]), minify) <= width_upto(
            tags,
            minify,
            k,
        ),
    decreases k,
{
    if k > i + 1 {
        lemma_width_upto_mono(tags, minify, i, k - 1);
    }
}

proof fn lemma_cat_upto_at(
    f: spec_fn(int) -> Seq<Seq<u8>>,
    tags: Seq<Seq<u8>>,
    minify: bool,
    k: int,
    i: int,
)
    requires
        fits_widths(f, tags, minify, k),
        0 <= i < k,
    ensures
        cat_upto(f, k).subrange(
            out_pos(tags, minify, i),
            out_pos(tags, minify, i) + width(kind_of(tags[i]), minify),
        ) == f(i),
    decreases k,
{
    let lo = out_pos(tags, minify, i);
    let w = width(kind_of(tags[i]), minify);
    if k == i + 1 {
        lemma_cat_upto_len(f, tags, minify, i);
        assert(cat_upto(f, k) == cat_upto(f, i) + f(i));
        assert(cat_upto(f, k).subrange(lo, lo + w) =~= f(i));
    } else {
        lemma_cat_upto_at(f, tags, minify, k - 1, i);
        lemma_cat_upto_len(f, tags, minify, i);
        lemma_cat_upto_len(f, tags, minify, k - 1);
        lemma_width_upto_mono(tags, minify, i, k - 1);
        assert(cat_upto(f, k) == cat_upto(f, k - 1) + f(k - 1));
        assert(cat_upto(f, k).subrange(lo, lo + w) =~= cat_upto(f, k - 1).subrange(lo, lo + w));
    }
}

/// Every data row has exactly the header row's cell count, whatever the
/// record holds: in verbatim mode the schema length, in minified mode the
/// schema length plus one extra cell per expanding field.
pub proof fn lemma_row_matches_header_count(
    tags: Seq<Seq<u8>>,
    rec: Seq<Option<Seq<u8>>>,
    minify: bool,
    chess960: bool,
    tables: CodeTables,
)
    ensures
        record_cells(tags, rec, minify, chess960, tables).len() == header_cells(
            tags,
            minify,
            chess960,
        ).len(),
        record_cells(tags, rec, minify, chess960, tables).len() == width_upto(
            tags,
            minify,
            tags.len() as int,
        ),
        record_cells(tags, rec, minify, chess960, tables).len() >= tags.len(),
        !minify ==> record_cells(tags, rec, minify, chess960, tables).len() == tags.len(),
    decreases tags.len(),
{
    let rf = row_fn(tags, rec, minify, chess960, tables);
    let hf = header_fn(tags, minify, chess960);
    assert forall|i: int| 0 <= i < tags.len() implies (#[trigger] rf(i)).len() == width(
        kind_of(tags[i]),
        minify,
    ) by {
        lemma_field_cells_len(kind_of(tags[i]), value_at(rec, i), minify, chess960, tables);
    }
    assert forall|i: int| 0 <= i < tags.len() implies (#[trigger] hf(i)).len() == width(
        kind_of(tags[i]),
        minify,
    ) by {
        lemma_header_cells_len(tags[i], minify, chess960);
    }
    lemma_cat_upto_len(rf, tags, minify, tags.len() as int);
    lemma_cat_upto_len(hf, tags, minify, tags.len() as int);
    if !minify {
        lemma_width_upto_verbatim(tags, tags.len() as int);
    }
}

proof fn lemma_width_upto_verbatim(tags: Seq<Seq<u8>>, k: int)
    requires
        k >= 0,
    ensures
        width_upto(tags, false, k) == k,
    decreases k,
{
    if k > 0 {
        lemma_width_upto_verbatim(tags, k - 1);
    }
}

/// The cells of schema position `i` stand at the row's cell positions
/// `out_pos(i)` up to `out_pos(i) + width(i)`, in schema order, whatever
/// other fields the record holds; the header's cells for the position stand
/// at the same cell positions. A record with every field present therefore
/// yields one value per schema position, in schema order, with expansions
/// where the header has them.
pub proof fn lemma_cells_in_schema_order(
    tags: Seq<Seq<u8>>,
    rec: Seq<Option<Seq<u8>>>,
    minify: bool,
    chess960: bool,
    tables: CodeTables,
    i: int,
)
    requires
        0 <= i < tags.len(),
    ensures
        record_cells(tags, rec, minify, chess960, tables).subrange(
            out_pos(tags, minify, i),
            out_pos(tags, minify, i) + width(kind_of(tags[i]), minify),
        ) == field_cells(kind_of(tags[i]), value_at(rec, i), minify, chess960, tables),
        header_cells(tags, minify, chess960).subrange(
            out_pos(tags, minify, i),
            out_pos(tags, minify, i) + width(kind_of(tags[i]), minify),
        ) == header_cells_at(tags[i], minify, chess960),
{
    let rf = row_fn(tags, rec, minify, chess960, tables);
    let hf = header_fn(tags, minify, chess960);
    assert forall|j: int| 0 <= j < tags.len() implies (#[trigger] rf(j)).len() == width(
        kind_of(tags[j]),
        minify,
    ) by {
        lemma_field_cells_len(kind_of(tags[j]), value_at(rec, j), minify, chess960, tables);
    }
    assert forall|j: int| 0 <= j < tags.len() implies (#[trigger] hf(j)).len() == width(
        kind_of(tags[j]),
        minify,
    ) by {
        lemma_header_cells_len(tags[j], minify, chess960);
    }
    lemma_cat_upto_at(rf, tags, minify, tags.len() as int, i);
    lemma_cat_upto_at(hf, tags, minify, tags.len() as int, i);
}

/// A field the record does not hold renders as the empty value's cells at
/// its own positions — in verbatim mode a single empty cell — and, by
/// `lemma_cells_in_schema_order`, every other field keeps its positions.
pub proof fn lemma_missing_field_left_empty(
    tags: Seq<Seq<u8>>,
    rec: Seq<Option<Seq<u8>>>,
    minify: bool,
    chess960: bool,
    tables: CodeTables,
    i: int,
)
    requires
        0 <= i < tags.len(),
        rec[i] is None,
    ensures
        record_cells(tags, rec, minify, chess960, tables).subrange(
            out_pos(tags, minify, i),
            out_pos(tags, minify, i) + width(kind_of(tags[i]), minify),
        ) == field_cells(kind_of(tags[i]), Seq::<u8>::empty(), minify, chess960, tables),
        !minify ==> record_cells(tags, rec, minify, chess960, tables).subrange(
            out_pos(tags, minify, i),
            out_pos(tags, minify, i) + width(kind_of(tags[i]), minify),
        ) == seq![Seq::<u8>::empty()],
{
    lemma_cells_in_schema_order(tags, rec, minify, chess960, tables, i);
    assert(value_at(rec, i) == Seq::<u8>::empty());
}

/// The byte row a record produces is its cells joined by the delimiter: the
/// bridge between the writer's byte-level contract and the cell-level laws.
pub proof fn lemma_partial_row_is_join(
    tags: Seq<Seq<u8>>,
    rec: Seq<Option<Seq<u8>>>,
    minify: bool,
    chess960: bool,
    tables: CodeTables,
    k: int,
)
    requires
        1 <= k <= tags.len(),
    ensures
        partial_row(tags, rec, k, minify, chess960, tables) == join_cells(
            cat_upto(row_fn(tags, rec, minify, chess960, tables), k),
        ) + (if k < tags.len() {
            seq![44u8]
        } else {
            Seq::<u8>::empty()
        }),
    decreases k,
{
    let rf = row_fn(tags, rec, minify, chess960, tables);
    assert forall|j: int| 0 <= j < k implies (#[trigger] rf(j)).len() == width(
        kind_of(tags[j]),
        minify,
    ) by {
        lemma_field_cells_len(kind_of(tags[j]), value_at(rec, j), minify, chess960, tables);
    }
    let trail: Seq<u8> = if k < tags.len() {
        seq![44u8]
    } else {
        Seq::<u8>::empty()
    };
    assert(rf(k - 1) == field_cells(
        kind_of(tags[k - 1]),
        value_at(rec, k - 1),
        minify,
        chess960,
        tables,
    ));
    if k == 1 {
        assert(cat_upto(rf, 1) =~= rf(0));
        assert(partial_row(tags, rec, 0, minify, chess960, tables) =~= Seq::<u8>::empty());
        assert(partial_row(tags, rec, 1, minify, chess960, tables) =~= join_cells(cat_upto(rf, 1))
            + trail);
    } else {
        lemma_partial_row_is_join(tags, rec, minify, chess960, tables, k - 1);
        lemma_cat_upto_len(rf, tags, minify, k - 1);
        lemma_join_concat(cat_upto(rf, k - 1), rf(k - 1));
        assert(cat_upto(rf, k) == cat_upto(rf, k - 1) + rf(k - 1));
        assert(join_cells(cat_upto(rf, k)) == join_cells(cat_upto(rf, k - 1)) + seq![44u8]
            + join_cells(rf(k - 1)));
        assert(partial_row(tags, rec, k, minify, chess960, tables) =~= join_cells(cat_upto(rf, k))
            + trail);
    }
}

/// A record's full line is its cells joined by the delimiter, terminated.
pub proof fn lemma_row_bytes_is_join(
    tags: Seq<Seq<u8>>,
    rec: Seq<Option<Seq<u8>>>,
    minify: bool,
    chess960: bool,
    tables: CodeTables,
)
    requires
        tags.len() >= 1,
    ensures
        row_bytes(tags, rec, minify, chess960, tables) == join_cells(
            record_cells(tags, rec, minify, chess960, tables),
        ) + seq![10u8],
{
    lemma_partial_row_is_join(tags, rec, minify, chess960, tables, tags.len() as int);
}

/// The header's full line is its cells joined by the delimiter, terminated.
pub proof fn lemma_header_bytes_is_join(tags: Seq<Seq<u8>>, minify: bool, chess960: bool)
    requires
        tags.len() >= 1,
    ensures
        header_row_bytes(tags, minify, chess960) == join_cells(
            header_cells(tags, minify, chess960),
        ) + seq![10u8],
{
    lemma_header_partial_is_join(tags, minify, chess960, tags.len() as int);
}

proof fn lemma_header_partial_is_join(tags: Seq<Seq<u8>>, minify: bool, chess960: bool, k: int)
    requires
        1 <= k <= tags.len(),
    ensures
        header_partial(tags, k, minify, chess960) == join_cells(
            cat_upto(header_fn(tags, minify, chess960), k),
        ) + (if k < tags.len() {
            seq![44u8]
        } else {
            Seq::<u8>::empty()
        }),
    decreases k,
{
    let hf = header_fn(tags, minify, chess960);
    assert forall|j: int| 0 <= j < k implies (#[trigger] hf(j)).len() == width(
        kind_of(tags[j]),
        minify,
    ) by {
        lemma_header_cells_len(tags[j], minify, chess960);
    }
    let trail: Seq<u8> = if k < tags.len() {
        seq![44u8]
    } else {
        Seq::<u8>::empty()
    };
    assert(hf(k - 1) == header_cells_at(tags[k - 1], minify, chess960));
    if k == 1 {
        assert(cat_upto(hf, 1) =~= hf(0));
        assert(header_partial(tags, 0, minify, chess960) =~= Seq::<u8>::empty());
        assert(header_partial(tags, 1, minify, chess960) =~= join_cells(cat_upto(hf, 1)) + trail);
    } else {
        lemma_header_partial_is_join(tags, minify, chess960, k - 1);
        lemma_cat_upto_len(hf, tags, minify, k - 1);
        lemma_join_concat(cat_upto(hf, k - 1), hf(k - 1));
        assert(cat_upto(hf, k) == cat_upto(hf, k - 1) + hf(k - 1));
        assert(join_cells(cat_upto(hf, k)) == join_cells(cat_upto(hf, k - 1)) + seq![44u8]
            + join_cells(hf(k - 1)));
        assert(header_partial(tags, k, minify, chess960) =~= join_cells(cat_upto(hf, k)) + trail);
    }
}


/// What follows the first occurrence of a byte is strictly shorter than the
/// whole.
proof fn lemma_after_first_shorter(v: Seq<u8>, b: u8)
    requires
        contains_byte(v, b),
    ensures
        after_first(v, b).len() < v.len(),
    decreases v.len(),
{
    if v.first() != b {
        let i = choose|i: int| 0 <= i < v.len() && v[i] == b;
        assert(v.drop_first()[i - 1] == b);
        assert(contains_byte(v.drop_first(), b));
        lemma_after_first_shorter(v.drop_first(), b);
    }
}

/// The cells a delimited line splits into.
pub open spec fn split_cells(bytes: Seq<u8>) -> Seq<Seq<u8>>
    decreases bytes.len(),
    via split_cells_decreases
{
    if !contains_byte(bytes, 44) {
        seq![bytes]
    } else {
        seq![before_first(bytes, 44)] + split_cells(after_first(bytes, 44))
    }
}

#[via_fn]
proof fn split_cells_decreases(bytes: Seq<u8>) {
    if contains_byte(bytes, 44) {
        lemma_after_first_shorter(bytes, 44);
    }
}

/// Splitting by the delimiter inverts joining, when no cell holds the
/// delimiter itself.
pub proof fn lemma_split_join(cells: Seq<Seq<u8>>)
    requires
        cells.len() >= 1,
        forall|i: int| 0 <= i < cells.len() ==> !contains_byte(#[trigger] cells[i], 44),
    ensures
        split_cells(join_cells(cells)) == cells,
    decreases cells.len(),
{
    if cells.len() == 1 {
        assert(!contains_byte(cells[0], 44));
        assert(split_cells(join_cells(cells)) =~= cells);
    } else {
        let rest = cells.subrange(1, cells.len() as int);
        let j = join_cells(cells);
        let n0 = cells[0].len() as int;
        assert(j == cells[0] + seq![44u8] + join_cells(rest));
        assert(j[n0] == 44);
        assert(forall|k: int| 0 <= k < n0 ==> j[k] == cells[0][k]);
        lemma_first_at(j, 44, n0);
        assert(before_first(j, 44) =~= cells[0]);
        assert(after_first(j, 44) =~= join_cells(rest));
        assert forall|i: int| 0 <= i < rest.len() implies !contains_byte(
            #[trigger] rest[i],
            44,
        ) by {
            assert(rest[i] == cells[i + 1]);
        }
        lemma_split_join(rest);
        assert(split_cells(j) =~= cells);
    }
}

/// Splitting a record's line, without its terminator, by the delimiter
/// yields exactly the record's cells: one value per schema position, in
/// schema order, with the expansions in place — provided, as the format
/// assumes, that no produced cell holds the delimiter itself.
pub proof fn lemma_split_row_yields_cells(
    tags: Seq<Seq<u8>>,
    rec: Seq<Option<Seq<u8>>>,
    minify: bool,
    chess960: bool,
    tables: CodeTables,
)
    requires
        tags.len() >= 1,
        forall|i: int|
            0 <= i < record_cells(tags, rec, minify, chess960, tables).len()
                ==> !contains_byte(
                #[trigger] record_cells(tags, rec, minify, chess960, tables)[i],
                44,
            ),
    ensures
        row_bytes(tags, rec, minify, chess960, tables) == join_cells(
            record_cells(tags, rec, minify, chess960, tables),
        ) + seq![10u8],
        split_cells(join_cells(record_cells(tags, rec, minify, chess960, tables)))
            == record_cells(tags, rec, minify, chess960, tables),
{
    lemma_row_bytes_is_join(tags, rec, minify, chess960, tables);
    lemma_row_matches_header_count(tags, rec, minify, chess960, tables);
    lemma_split_join(record_cells(tags, rec, minify, chess960, tables));
}

/// The whole output of one conversion: the header line, then one line per
/// record, in order.
pub open spec fn output_of(
    tags: Seq<Seq<u8>>,
    recs: Seq<Seq<Option<Seq<u8>>>>,
    minify: bool,
    chess960: bool,
    tables: CodeTables,
) -> Seq<u8>
    decreases recs.len(),
{
    if recs.len() == 0 {
        header_row_bytes(tags, minify, chess960)
    } else {
        output_of(tags, recs.drop_last(), minify, chess960, tables) + row_bytes(
            tags,
            recs.last(),
            minify,
            chess960,
            tables,
        )
    }
}

/// Whether two table sets hold the same data.
pub open spec fn tables_eq(t1: CodeTables, t2: CodeTables) -> bool {
    &&& t1.outcomes@ == t2.outcomes@
    &&& t1.titles@ == t2.titles@
    &&& t1.openings@ == t2.openings@
    &&& t1.endings@ == t2.endings@
    &&& t1.starts@ == t2.starts@
}

proof fn lemma_field_cells_tables(
    kind: crate::names::FieldKind,
    value: Seq<u8>,
    minify: bool,
    chess960: bool,
    t1: CodeTables,
    t2: CodeTables,
)
    requires
        tables_eq(t1, t2),
    ensures
        field_cells(kind, value, minify, chess960, t1) == field_cells(
            kind,
            value,
            minify,
            chess960,
            t2,
        ),
{
}

proof fn lemma_partial_row_tables(
    tags: Seq<Seq<u8>>,
    rec: Seq<Option<Seq<u8>>>,
    k: int,
    minify: bool,
    chess960: bool,
    t1: CodeTables,
    t2: CodeTables,
)
    requires
        tables_eq(t1, t2),
    ensures
        partial_row(tags, rec, k, minify, chess960, t1) == partial_row(
            tags,
            rec,
            k,
            minify,
            chess960,
            t2,
        ),
    decreases k,
{
    if k > 0 {
        lemma_partial_row_tables(tags, rec, k - 1, minify, chess960, t1, t2);
        lemma_field_cells_tables(kind_of(tags[k - 1]), value_at(rec, k - 1), minify, chess960, t1, t2);
    }
}

/// A row's bytes depend on the tables only through the data they hold.
pub proof fn lemma_row_bytes_tables(
    tags: Seq<Seq<u8>>,
    rec: Seq<Option<Seq<u8>>>,
    minify: bool,
    chess960: bool,
    t1: CodeTables,
    t2: CodeTables,
)
    requires
        tables_eq(t1, t2),
    ensures
        row_bytes(tags, rec, minify, chess960, t1) == row_bytes(tags, rec, minify, chess960, t2),
{
    lemma_partial_row_tables(tags, rec, tags.len() as int, minify, chess960, t1, t2);
}

proof fn lemma_output_tables(
    tags: Seq<Seq<u8>>,
    recs: Seq<Seq<Option<Seq<u8>>>>,
    minify: bool,
    chess960: bool,
    t1: CodeTables,
    t2: CodeTables,
)
    requires
        tables_eq(t1, t2),
    ensures
        output_of(tags, recs, minify, chess960, t1) == output_of(tags, recs, minify, chess960, t2),
    decreases recs.len(),
{
    if recs.len() > 0 {
        lemma_output_tables(tags, recs.drop_last(), minify, chess960, t1, t2);
        lemma_row_bytes_tables(tags, recs.last(), minify, chess960, t1, t2);
    }
}

/// Converting the same records twice with the same configuration yields
/// byte-identical output. The two runs' writers are built independently, so
/// each holds its own tables; both hold the standard data, as
/// `CodeTables::new` and `CsvWriter::new` ensure, and the output is a
/// function of the schema, the mode flags, the table data and the records
/// alone — each writer method's contract pins its bytes to these and to
/// nothing else.
pub proof fn lemma_conversion_deterministic(
    tags: Seq<Seq<u8>>,
    recs1: Seq<Seq<Option<Seq<u8>>>>,
    recs2: Seq<Seq<Option<Seq<u8>>>>,
    minify: bool,
    chess960: bool,
    t1: CodeTables,
    t2: CodeTables,
)
    requires
        recs1 == recs2,
        standard_tables(t1),
        standard_tables(t2),
    ensures
        output_of(tags, recs1, minify, chess960, t1) == output_of(
            tags,
            recs2,
            minify,
            chess960,
            t2,
        ),
{
    lemma_output_tables(tags, recs1, minify, chess960, t1, t2);
}

} // verus!
