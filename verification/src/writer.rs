//! The row cursor and writer: one record's worth of delimited output at a
//! time. The cursor is the next schema position to write; a recognized
//! header event first backfills empty cells for every skipped position, then
//! writes the event's own cells; the end of a record backfills the rest and
//! terminates the line. The bytes accumulate in a buffer that the caller
//! drains between records and hands to its sink.

use vstd::prelude::*;

use crate::bytes::copy_bytes;
use crate::names::kind_of;
use crate::schema::Tags;
use crate::schema::spec_index;
use crate::schema::lemma_spec_index_found;
use crate::tables::CodeTables;
use crate::tables::standard_tables;
use crate::transform::cells_view;
use crate::transform::field_cells;
use crate::transform::header_cells_at;
use crate::transform::header_labels;
use crate::transform::lemma_field_cells_len;
use crate::transform::lemma_header_cells_len;
use crate::transform::transcode_field;

verus! {

/// The value a record carries at a position: the raw value of its event, or
/// empty when no event named the position.
pub open spec fn value_at(rec: Seq<Option<Seq<u8>>>, i: int) -> Seq<u8> {
    match rec[i] {
        Some(v) => v,
        None => Seq::empty(),
    }
}

/// A record with no field present.
pub open spec fn empty_record(n: nat) -> Seq<Option<Seq<u8>>> {
    Seq::new(n, |i: int| None)
}

/// Cells joined by the delimiter.
pub open spec fn join_cells(cells: Seq<Seq<u8>>) -> Seq<u8>
    decreases cells.len(),
{
    if cells.len() == 0 {
        Seq::empty()
    } else if cells.len() == 1 {
        cells[0]
    } else {
        cells[0] + seq![44u8] + join_cells(cells.subrange(1, cells.len() as int))
    }
}

/// Appending one more cell appends one delimiter and the cell.
pub proof fn lemma_join_snoc(cells: Seq<Seq<u8>>, c: Seq<u8>)
    requires
        cells.len() >= 1,
    ensures
        join_cells(cells.push(c)) == join_cells(cells) + seq![44u8] + c,
    decreases cells.len(),
{
    let p = cells.push(c);
    if cells.len() == 1 {
        assert(p.subrange(1, p.len() as int) =~= seq![c]);
        assert(join_cells(seq![c]) == c);
        assert(join_cells(p) =~= join_cells(cells) + seq![44u8] + c);
    } else {
        let rest = cells.subrange(1, cells.len() as int);
        assert(p.subrange(1, p.len() as int) =~= rest.push(c));
        lemma_join_snoc(rest, c);
        assert(join_cells(p) =~= join_cells(cells) + seq![44u8] + c);
    }
}

/// Joining a concatenation of two non-empty cell lists inserts one delimiter
/// between their joined halves.
pub proof fn lemma_join_concat(a: Seq<Seq<u8>>, b: Seq<Seq<u8>>)
    requires
        a.len() >= 1,
        b.len() >= 1,
    ensures
        join_cells(a + b) == join_cells(a) + seq![44u8] + join_cells(b),
    decreases b.len(),
{
    if b.len() == 1 {
        assert(a + b =~= a.push(b[0]));
        lemma_join_snoc(a, b[0]);
        assert(join_cells(b) == b[0]);
    } else {
        let bfront = b.drop_last();
        lemma_join_concat(a, bfront);
        lemma_join_snoc(a + bfront, b.last());
        lemma_join_snoc(bfront, b.last());
        assert(a + b =~= (a + bfront).push(b.last()));
        assert(bfront.push(b.last()) =~= b);
        assert(join_cells(a + b) =~= join_cells(a) + seq![44u8] + join_cells(b));
    }
}

/// The bytes position `i` of the schema contributes to a data row: its cells
/// joined by the delimiter, with a trailing delimiter unless `i` is the last
/// schema position.
pub open spec fn pos_bytes(
    tags: Seq<Seq<u8>>,
    rec: Seq<Option<Seq<u8>>>,
    i: int,
    minify: bool,
    chess960: bool,
    tables: CodeTables,
) -> Seq<u8> {
    join_cells(field_cells(kind_of(tags[i]), value_at(rec, i), minify, chess960, tables)) + (if i
        + 1 < tags.len() {
        seq![44u8]
    } else {
        Seq::empty()
    })
}

/// The bytes the first `k` schema positions of a record's row hold.
pub open spec fn partial_row(
    tags: Seq<Seq<u8>>,
    rec: Seq<Option<Seq<u8>>>,
    k: int,
    minify: bool,
    chess960: bool,
    tables: CodeTables,
) -> Seq<u8>
    decreases k,
{
    if k <= 0 {
        Seq::empty()
    } else {
        partial_row(tags, rec, k - 1, minify, chess960, tables) + pos_bytes(
            tags,
            rec,
            k - 1,
            minify,
            chess960,
            tables,
        )
    }
}

/// One record's full output line.
pub open spec fn row_bytes(
    tags: Seq<Seq<u8>>,
    rec: Seq<Option<Seq<u8>>>,
    minify: bool,
    chess960: bool,
    tables: CodeTables,
) -> Seq<u8> {
    partial_row(tags, rec, tags.len() as int, minify, chess960, tables) + seq![10u8]
}

/// The bytes position `i` contributes to the header row.
pub open spec fn header_pos_bytes(
    tags: Seq<Seq<u8>>,
    i: int,
    minify: bool,
    chess960: bool,
) -> Seq<u8> {
    join_cells(header_cells_at(tags[i], minify, chess960)) + (if i + 1 < tags.len() {
        seq![44u8]
    } else {
        Seq::empty()
    })
}

/// The bytes the first `k` schema positions of the header row hold.
pub open spec fn header_partial(tags: Seq<Seq<u8>>, k: int, minify: bool, chess960: bool) -> Seq<
    u8,
>
    decreases k,
{
    if k <= 0 {
        Seq::empty()
    } else {
        header_partial(tags, k - 1, minify, chess960) + header_pos_bytes(
            tags,
            k - 1,
            minify,
            chess960,
        )
    }
}

/// The full header line.
pub open spec fn header_row_bytes(tags: Seq<Seq<u8>>, minify: bool, chess960: bool) -> Seq<u8> {
    header_partial(tags, tags.len() as int, minify, chess960) + seq![10u8]
}

/// Updating a record at or beyond position `k` leaves the bytes of the first
/// `k` positions unchanged.
pub proof fn lemma_partial_row_update(
    tags: Seq<Seq<u8>>,
    rec: Seq<Option<Seq<u8>>>,
    k: int,
    i: int,
    v: Option<Seq<u8>>,
    minify: bool,
    chess960: bool,
    tables: CodeTables,
)
    requires
        k <= i < rec.len(),
    ensures
        partial_row(tags, rec.update(i, v), k, minify, chess960, tables) == partial_row(
            tags,
            rec,
            k,
            minify,
            chess960,
            tables,
        ),
    decreases k,
{
    if k > 0 {
        lemma_partial_row_update(tags, rec, k - 1, i, v, minify, chess960, tables);
        assert(value_at(rec.update(i, v), k - 1) == value_at(rec, k - 1));
    }
}

/// The writer: the schema, the code tables, the run's mode flags, the cursor
/// over schema positions, and the byte buffer the row accumulates in. The
/// ghost record collects the values the current record's events carried; the
/// ghost start marks where in the buffer the current line began.
pub struct CsvWriter {
    pub buf: Vec<u8>,
    pub tags: Tags,
    pub tables: CodeTables,
    pub minify: bool,
    pub chess960: bool,
    pub cursor: usize,
    pub rec: Ghost<Seq<Option<Seq<u8>>>>,
    pub start: Ghost<Seq<u8>>,
}

/// Two writer states that differ at most in their buffers.
pub open spec fn same_but_buf(a: CsvWriter, b: CsvWriter) -> bool {
    &&& b.tags == a.tags
    &&& b.tables == a.tables
    &&& b.minify == a.minify
    &&& b.chess960 == a.chess960
    &&& b.cursor == a.cursor
    &&& b.rec@ == a.rec@
    &&& b.start@ == a.start@
}

/// Two writer states with the same configuration.
pub open spec fn config_eq(a: CsvWriter, b: CsvWriter) -> bool {
    &&& b.tags == a.tags
    &&& b.tables == a.tables
    &&& b.minify == a.minify
    &&& b.chess960 == a.chess960
}

impl CsvWriter {
    /// A well-formed writer: the cursor stays within the schema, nothing is
    /// recorded at or beyond the cursor, and the buffer holds the line so
    /// far: everything up to where the current line began, then the bytes of
    /// the positions below the cursor.
    pub open spec fn wf(self) -> bool {
        &&& self.tags.wf()
        &&& self.cursor <= self.tags@.len()
        &&& self.rec@.len() == self.tags@.len()
        &&& forall|j: int| self.cursor <= j < self.rec@.len() ==> self.rec@[j] is None
        &&& self.buf@ == self.start@ + partial_row(
            self.tags@,
            self.rec@,
            self.cursor as int,
            self.minify,
            self.chess960,
            self.tables,
        )
    }

    /// A writer over a schema, ready for the header row and the first record.
    pub fn new(tags: Tags, minify: bool, chess960: bool) -> (w: CsvWriter)
        requires
            tags.wf(),
        ensures
            w.wf(),
            w.tags == tags,
            w.minify == minify,
            w.chess960 == chess960,
            w.cursor == 0,
            w.buf@ == Seq::<u8>::empty(),
            w.rec@ == empty_record(tags@.len()),
            w.start@ == Seq::<u8>::empty(),
            standard_tables(w.tables),
    {
        let w = CsvWriter {
            buf: Vec::new(),
            tags,
            tables: CodeTables::new(),
            minify,
            chess960,
            cursor: 0,
            rec: Ghost(empty_record(tags@.len())),
            start: Ghost(Seq::empty()),
        };
        proof {
            assert(w.buf@ =~= w.start@ + partial_row(
                w.tags@,
                w.rec@,
                0,
                w.minify,
                w.chess960,
                w.tables,
            ));
        }
        w
    }

    /// Terminate the current line.
    pub fn write_newline(&mut self)
        ensures
            same_but_buf(*old(self), *final(self)),
            final(self).buf@ == old(self).buf@ + seq![10u8],
    {
        self.buf.push(10);
    }

    /// Write one delimiter.
    pub fn write_comma(&mut self)
        ensures
            same_but_buf(*old(self), *final(self)),
            final(self).buf@ == old(self).buf@ + seq![44u8],
    {
        self.buf.push(44);
    }

    /// Write one cell's bytes. `key` names the field the value belongs to;
    /// it does not reach the output.
    #[allow(unused_variables)]
    pub fn write_value(&mut self, key: &[u8], value: &[u8])
        ensures
            same_but_buf(*old(self), *final(self)),
            final(self).buf@ == old(self).buf@ + value@,
    {
        let n = value.len();
        let mut i: usize = 0;
        while i < n
            invariant
                n == value@.len(),
                i <= n,
                same_but_buf(*old(self), *self),
                self.buf@ == old(self).buf@ + value@.subrange(0, i as int),
            decreases n - i,
        {
            self.buf.push(value[i]);
            assert(self.buf@ =~= old(self).buf@ + value@.subrange(0, i + 1));
            i = i + 1;
        }
        assert(self.buf@ =~= old(self).buf@ + value@);
    }

    /// Hand the buffered bytes out and clear the buffer. Only meaningful at
    /// a record boundary, where the buffer ends with a completed line.
    pub fn flush(&mut self) -> (out: Vec<u8>)
        requires
            old(self).wf(),
            old(self).cursor == 0,
        ensures
            final(self).wf(),
            config_eq(*old(self), *final(self)),
            final(self).cursor == 0,
            final(self).rec@ == old(self).rec@,
            final(self).buf@ == Seq::<u8>::empty(),
            final(self).start@ == Seq::<u8>::empty(),
            out@ == old(self).buf@,
    {
        let out = copy_bytes(self.buf.as_slice());
        self.buf = Vec::new();
        proof {
            self.start = Ghost(Seq::empty());
            assert(self.buf@ =~= self.start@ + partial_row(
                self.tags@,
                self.rec@,
                0,
                self.minify,
                self.chess960,
                self.tables,
            ));
        }
        out
    }

    /// Write one position's cells, delimiters between them, and the trailing
    /// delimiter unless the position is the schema's last.
    fn write_cells(&mut self, key: &[u8], cells: &Vec<Vec<u8>>, last_pos: bool)
        requires
            cells@.len() >= 1,
        ensures
            same_but_buf(*old(self), *final(self)),
            final(self).buf@ == old(self).buf@ + join_cells(cells_view(cells@)) + (if last_pos {
                Seq::<u8>::empty()
            } else {
                seq![44u8]
            }),
    {
        self.write_value(key, cells[0].as_slice());
        proof {
            assert(cells_view(cells@).subrange(0, 1) =~= seq![cells@[0]@]);
            assert(join_cells(seq![cells@[0]@]) == cells@[0]@);
        }
        let n = cells.len();
        let mut j: usize = 1;
        while j < n
            invariant
                n == cells@.len(),
                1 <= j <= n,
                same_but_buf(*old(self), *self),
                self.buf@ == old(self).buf@ + join_cells(cells_view(cells@).subrange(0, j as int)),
            decreases n - j,
        {
            self.write_comma();
            self.write_value(key, cells[j].as_slice());
            proof {
                let pre = cells_view(cells@).subrange(0, j as int);
                lemma_join_snoc(pre, cells@[j as int]@);
                assert(pre.push(cells@[j as int]@) =~= cells_view(cells@).subrange(0, j + 1));
                assert(self.buf@ =~= old(self).buf@ + join_cells(
                    cells_view(cells@).subrange(0, j + 1),
                ));
            }
            j = j + 1;
        }
        proof {
            assert(cells_view(cells@).subrange(0, n as int) =~= cells_view(cells@));
        }
        if !last_pos {
            self.write_comma();
        }
    }

    /// Write the cells of schema position `i`, which must be the cursor's,
    /// whose recorded value is `value`.
    fn write_position(&mut self, i: usize, key: &[u8], value: &[u8])
        requires
            old(self).tags.wf(),
            old(self).cursor == i,
            i < old(self).tags@.len(),
            old(self).rec@.len() == old(self).tags@.len(),
            forall|j: int| i < j < old(self).rec@.len() ==> old(self).rec@[j] is None,
            old(self).buf@ == old(self).start@ + partial_row(
                old(self).tags@,
                old(self).rec@,
                i as int,
                old(self).minify,
                old(self).chess960,
                old(self).tables,
            ),
            value_at(old(self).rec@, i as int) == value@,
        ensures
            final(self).wf(),
            config_eq(*old(self), *final(self)),
            final(self).cursor == i + 1,
            final(self).rec@ == old(self).rec@,
            final(self).start@ == old(self).start@,
            final(self).buf@ == old(self).buf@ + pos_bytes(
                old(self).tags@,
                old(self).rec@,
                i as int,
                old(self).minify,
                old(self).chess960,
                old(self).tables,
            ),
    {
        let kind = self.tags.kind(i);
        let cells = transcode_field(kind, value, self.minify, self.chess960, &self.tables);
        proof {
            lemma_field_cells_len(kind, value@, self.minify, self.chess960, self.tables);
        }
        let last_pos = i == self.tags.last_index();
        self.write_cells(key, &cells, last_pos);
        let n = self.tags.len();
        assert(i < n);
        self.cursor = i + 1;
        proof {
            assert(self.buf@ =~= self.start@ + partial_row(
                self.tags@,
                self.rec@,
                i + 1,
                self.minify,
                self.chess960,
                self.tables,
            ));
        }
    }

    /// Write the cells of schema position `i`, recording `value` there. The
    /// cursor must stand at `i`; gaps are filled beforehand by
    /// `write_any_missing_tags`.
    pub fn write_tag(&mut self, i: usize, key: &[u8], value: &[u8])
        requires
            old(self).wf(),
            old(self).cursor == i,
            i < old(self).tags@.len(),
            key@ == old(self).tags@[i as int],
        ensures
            final(self).wf(),
            config_eq(*old(self), *final(self)),
            final(self).cursor == i + 1,
            final(self).start@ == old(self).start@,
            final(self).rec@ == old(self).rec@.update(i as int, Some(value@)),
            final(self).buf@ == old(self).buf@ + pos_bytes(
                old(self).tags@,
                old(self).rec@.update(i as int, Some(value@)),
                i as int,
                old(self).minify,
                old(self).chess960,
                old(self).tables,
            ),
    {
        proof {
            self.rec = Ghost(self.rec@.update(i as int, Some(value@)));
            lemma_partial_row_update(
                old(self).tags@,
                old(self).rec@,
                i as int,
                i as int,
                Some(value@),
                old(self).minify,
                old(self).chess960,
                old(self).tables,
            );
        }
        self.write_position(i, key, value);
    }

    /// Backfill an empty cell set for every schema position from the cursor
    /// up to, not including, position `i`.
    pub fn write_any_missing_tags(&mut self, i: usize)
        requires
            old(self).wf(),
            old(self).cursor <= i <= old(self).tags@.len(),
        ensures
            final(self).wf(),
            config_eq(*old(self), *final(self)),
            final(self).cursor == i,
            final(self).rec@ == old(self).rec@,
            final(self).start@ == old(self).start@,
            final(self).buf@ == old(self).start@ + partial_row(
                old(self).tags@,
                old(self).rec@,
                i as int,
                old(self).minify,
                old(self).chess960,
                old(self).tables,
            ),
    {
        let empty: Vec<u8> = Vec::new();
        while self.cursor < i
            invariant
                self.wf(),
                self.cursor <= i <= self.tags@.len(),
                empty@.len() == 0,
                config_eq(*old(self), *self),
                self.rec@ == old(self).rec@,
                self.start@ == old(self).start@,
            decreases i - self.cursor,
        {
            let c = self.cursor;
            let name = copy_bytes(self.tags.index(c).as_slice());
            assert(value_at(self.rec@, c as int) == empty@);
            self.write_position(c, name.as_slice(), empty.as_slice());
        }
    }

    /// Take one header event. A key outside the schema is ignored; a key at
    /// a position the cursor has passed is ignored; otherwise the skipped
    /// positions are backfilled and the event's cells are written.
    pub fn header(&mut self, key: &[u8], value: &[u8])
        requires
            old(self).wf(),
        ensures
            final(self).wf(),
            config_eq(*old(self), *final(self)),
            final(self).start@ == old(self).start@,
            match spec_index(old(self).tags@, key@) {
                Some(i) => if old(self).cursor <= i {
                    final(self).rec@ == old(self).rec@.update(i, Some(value@))
                        && final(self).cursor == i + 1
                } else {
                    *final(self) == *old(self)
                },
                None => *final(self) == *old(self),
            },
    {
        proof {
            lemma_spec_index_found(self.tags@, key@);
        }
        match self.tags.get_index(key) {
            Some(i) => {
                if self.cursor <= i {
                    self.write_any_missing_tags(i);
                    self.write_tag(i, key, value);
                }
            },
            None => {},
        }
    }

    /// Whether the record's move text should be skipped: always, since only
    /// the headers reach the output.
    pub fn end_headers(&self) -> (skip: bool)
        ensures
            skip,
    {
        true
    }

    /// Finish the current record: backfill every remaining position, write
    /// the line terminator, and reset the cursor for the next record. The
    /// appended line is exactly the record's row.
    pub fn end_game(&mut self)
        requires
            old(self).wf(),
        ensures
            final(self).wf(),
            config_eq(*old(self), *final(self)),
            final(self).cursor == 0,
            final(self).rec@ == empty_record(old(self).tags@.len()),
            final(self).buf@ == old(self).start@ + row_bytes(
                old(self).tags@,
                old(self).rec@,
                old(self).minify,
                old(self).chess960,
                old(self).tables,
            ),
            final(self).start@ == final(self).buf@,
    {
        let n = self.tags.len();
        self.write_any_missing_tags(n);
        self.write_newline();
        proof {
            assert(self.buf@ =~= old(self).start@ + row_bytes(
                old(self).tags@,
                old(self).rec@,
                old(self).minify,
                old(self).chess960,
                old(self).tables,
            ));
            self.rec = Ghost(empty_record(self.tags@.len()));
            self.start = Ghost(self.buf@);
            assert(self.buf@ =~= self.start@ + partial_row(
                self.tags@,
                self.rec@,
                0,
                self.minify,
                self.chess960,
                self.tables,
            ));
        }
        self.cursor = 0;
    }

    /// Write the header row: one cell set per schema position, renamed and
    /// expanded in minified mode exactly as the data rows expand, so the
    /// header and every data row have the same cell count.
    pub fn write_header(&mut self)
        requires
            old(self).wf(),
            old(self).cursor == 0,
        ensures
            final(self).wf(),
            config_eq(*old(self), *final(self)),
            final(self).cursor == 0,
            final(self).rec@ == old(self).rec@,
            final(self).buf@ == old(self).buf@ + header_row_bytes(
                old(self).tags@,
                old(self).minify,
                old(self).chess960,
            ),
            final(self).start@ == final(self).buf@,
    {
        let n = self.tags.len();
        let mut col: usize = 0;
        while col < n
            invariant
                n == self.tags@.len(),
                col <= n,
                same_but_buf(*old(self), *self),
                self.tags.wf(),
                self.buf@ == old(self).buf@ + header_partial(
                    self.tags@,
                    col as int,
                    self.minify,
                    self.chess960,
                ),
            decreases n - col,
        {
            let name = copy_bytes(self.tags.index(col).as_slice());
            let labels = header_labels(name.as_slice(), self.minify, self.chess960);
            proof {
                lemma_header_cells_len(name@, self.minify, self.chess960);
            }
            let last_pos = col + 1 == n;
            self.write_cells(name.as_slice(), &labels, last_pos);
            proof {
                assert(self.buf@ =~= old(self).buf@ + header_partial(
                    self.tags@,
                    col + 1,
                    self.minify,
                    self.chess960,
                ));
            }
            col = col + 1;
        }
        self.write_newline();
        proof {
            assert(self.buf@ =~= old(self).buf@ + header_row_bytes(
                old(self).tags@,
                old(self).minify,
                old(self).chess960,
            ));
            self.start = Ghost(self.buf@);
            assert(self.buf@ =~= self.start@ + partial_row(
                self.tags@,
                self.rec@,
                0,
                self.minify,
                self.chess960,
                self.tables,
            ));
        }
    }
}

} // verus!
