//! End-to-end tests of the transcoder: header rows, data rows, the minified
//! transforms, the code tables, and the schema.

use pgn2csv::schema::{SchemaError, Tags};
use pgn2csv::tables::CodeTables;
use pgn2csv::writer::CsvWriter;

fn b(s: &str) -> Vec<u8> {
    s.as_bytes().to_vec()
}

fn s(v: &[u8]) -> String {
    String::from_utf8(v.to_vec()).unwrap()
}

/// Split one newline-terminated row into its comma-delimited cells.
fn cells(row: &str) -> Vec<String> {
    let trimmed = row.strip_suffix('\n').expect("row ends with newline");
    trimmed.split(',').map(|c| c.to_string()).collect()
}

fn standard_writer(minify: bool) -> CsvWriter {
    CsvWriter::new(Tags::default_for(false), minify, false)
}

fn variant_writer() -> CsvWriter {
    CsvWriter::new(Tags::default_for(true), true, true)
}

/// One record's row, fed as (key, value) events to a fresh line.
fn row_of(w: &mut CsvWriter, events: &[(&str, &str)]) -> String {
    for (k, v) in events {
        w.header(k.as_bytes(), v.as_bytes());
    }
    w.end_game();
    s(&w.flush())
}

#[test]
fn verbatim_header_row() {
    let mut w = standard_writer(false);
    w.write_header();
    let line = s(&w.flush());
    assert_eq!(
        line,
        "Event,Site,White,Black,Result,UTCDate,UTCTime,WhiteElo,BlackElo,WhiteRatingDiff,BlackRatingDiff,WhiteTitle,BlackTitle,ECO,Opening,TimeControl,Termination\n"
    );
}

#[test]
fn minified_header_row() {
    let mut w = standard_writer(true);
    w.write_header();
    let line = s(&w.flush());
    let got = cells(&line);
    let want = vec![
        "Tournament",
        "Game",
        "White",
        "Black",
        "Result",
        "UTCDate",
        "UTCTime",
        "WhiteRating",
        "WhiteRatingProvisional",
        "BlackRating",
        "BlackRatingProvisional",
        "WhiteRatingDiff",
        "BlackRatingDiff",
        "WhiteTitle",
        "BlackTitle",
        "ECO",
        "Opening",
        "ClockInitialTime",
        "ClockIncrement",
        "Termination",
    ];
    assert_eq!(got, want);
}

#[test]
fn variant_header_renames_starting_position() {
    let mut w = variant_writer();
    w.write_header();
    let line = s(&w.flush());
    let got = cells(&line);
    assert_eq!(got[16], "StartingPosition");
    assert_eq!(got.len(), 20);
}

#[test]
fn header_and_row_have_same_cell_count_verbatim() {
    let mut w = standard_writer(false);
    w.write_header();
    let header = s(&w.flush());
    let row = row_of(&mut w, &[("Event", "Rated Blitz game"), ("Result", "1-0")]);
    assert_eq!(cells(&header).len(), cells(&row).len());
    assert_eq!(cells(&row).len(), 17);
}

#[test]
fn header_and_row_have_same_cell_count_minified() {
    let mut w = standard_writer(true);
    w.write_header();
    let header = s(&w.flush());
    let row = row_of(&mut w, &[("Event", ""), ("TimeControl", "300+0")]);
    assert_eq!(cells(&header).len(), cells(&row).len());
    assert_eq!(cells(&row).len(), 20);
}

#[test]
fn sparse_record_keeps_positions() {
    let mut w = standard_writer(false);
    let row = row_of(&mut w, &[("Event", "e"), ("White", "w"), ("Termination", "t")]);
    assert_eq!(row, "e,,w,,,,,,,,,,,,,,t\n");
}

#[test]
fn empty_record_renders_all_empty() {
    let mut w = standard_writer(false);
    let row = row_of(&mut w, &[]);
    assert_eq!(row, ",,,,,,,,,,,,,,,,\n");
}

#[test]
fn unknown_key_is_ignored() {
    let mut w = standard_writer(false);
    let row = row_of(&mut w, &[("Moves", "1. e4 e5"), ("White", "w")]);
    assert_eq!(row, ",,w,,,,,,,,,,,,,,\n");
}

#[test]
fn missing_fields_do_not_shift_others() {
    let mut w = standard_writer(false);
    let full = row_of(
        &mut w,
        &[("Event", "e"), ("Site", "s"), ("White", "w"), ("Black", "b")],
    );
    let sparse = row_of(&mut w, &[("Event", "e"), ("Black", "b")]);
    assert_eq!(cells(&full)[3], "b");
    assert_eq!(cells(&sparse)[3], "b");
    assert_eq!(cells(&sparse)[1], "");
    assert_eq!(cells(&sparse)[2], "");
}

#[test]
fn rating_with_provisional_marker() {
    let mut w = standard_writer(true);
    let row = row_of(&mut w, &[("WhiteElo", "1500?")]);
    let got = cells(&row);
    assert_eq!(got[7], "1500");
    assert_eq!(got[8], "1");
}

#[test]
fn rating_without_provisional_marker() {
    let mut w = standard_writer(true);
    let row = row_of(&mut w, &[("WhiteElo", "1500"), ("BlackElo", "900?")]);
    let got = cells(&row);
    assert_eq!(got[7], "1500");
    assert_eq!(got[8], "0");
    assert_eq!(got[9], "900");
    assert_eq!(got[10], "1");
}

#[test]
fn time_control_splits_on_separator() {
    let mut w = standard_writer(true);
    let row = row_of(&mut w, &[("TimeControl", "300+0")]);
    let got = cells(&row);
    assert_eq!(got[17], "300");
    assert_eq!(got[18], "0");
}

#[test]
fn time_control_no_clock_marker() {
    let mut w = standard_writer(true);
    let row = row_of(&mut w, &[("TimeControl", "-")]);
    let got = cells(&row);
    assert_eq!(got[17], "");
    assert_eq!(got[18], "");
}

#[test]
fn time_control_missing_increment() {
    let mut w = standard_writer(true);
    let row = row_of(&mut w, &[("TimeControl", "600")]);
    let got = cells(&row);
    assert_eq!(got[17], "600");
    assert_eq!(got[18], "");
}

#[test]
fn link_field_keeps_trailing_segment() {
    let mut w = standard_writer(true);
    let row = row_of(
        &mut w,
        &[
            ("Event", "Rated tournament https://example.org/tournament/AbC123"),
            ("Site", "https://example.org/PpwQZx9y"),
        ],
    );
    let got = cells(&row);
    assert_eq!(got[0], "AbC123");
    assert_eq!(got[1], "PpwQZx9y");
}

#[test]
fn link_field_without_separator_is_empty() {
    let mut w = standard_writer(true);
    let row = row_of(&mut w, &[("Event", "Casual game")]);
    assert_eq!(cells(&row)[0], "");
}

#[test]
fn rating_delta_strips_explicit_plus() {
    let mut w = standard_writer(true);
    let row = row_of(&mut w, &[("WhiteRatingDiff", "+15"), ("BlackRatingDiff", "-15")]);
    let got = cells(&row);
    assert_eq!(got[11], "15");
    assert_eq!(got[12], "-15");
}

#[test]
fn outcome_is_coded() {
    let mut w = standard_writer(true);
    let row = row_of(&mut w, &[("Result", "1/2-1/2")]);
    assert_eq!(cells(&row)[4], "3");
}

#[test]
fn unknown_categorical_value_degrades_to_empty() {
    let mut w = standard_writer(true);
    let row = row_of(
        &mut w,
        &[("Result", "2-0"), ("WhiteTitle", "XYZ"), ("Termination", "Lightning strike")],
    );
    let got = cells(&row);
    assert_eq!(got[4], "");
    assert_eq!(got[13], "");
    assert_eq!(got[19], "");
}

#[test]
fn starting_position_is_coded_in_variant_mode() {
    let mut w = variant_writer();
    let row = row_of(
        &mut w,
        &[("FEN", "bbnrkqnr/pppppppp/8/8/8/8/PPPPPPPP/BBNRKQNR w KQkq - 0 1")],
    );
    assert_eq!(cells(&row)[16], "240");
    let row2 = row_of(
        &mut w,
        &[("FEN", "rnbqkbnr/pppppppp/8/8/8/8/PPPPPPPP/RNBQKBNR w KQkq - 0 1")],
    );
    assert_eq!(cells(&row2)[16], "518");
}

#[test]
fn fen_is_copied_when_not_variant() {
    let names = vec![b("Event"), b("FEN")];
    let tags = Tags::from(&names).unwrap();
    let mut w = CsvWriter::new(tags, true, false);
    let row = row_of(&mut w, &[("FEN", "8/8/8/8/8/8/8/8 w - - 0 1")]);
    assert_eq!(cells(&row)[1], "8/8/8/8/8/8/8/8 w - - 0 1");
}

#[test]
fn conversion_is_idempotent() {
    let events: &[(&str, &str)] = &[
        ("Event", "Rated Blitz game https://example.org/tournament/x1"),
        ("Result", "0-1"),
        ("WhiteElo", "2100?"),
        ("TimeControl", "180+2"),
    ];
    let mut out1 = Vec::new();
    let mut out2 = Vec::new();
    for out in [&mut out1, &mut out2] {
        let mut w = standard_writer(true);
        w.write_header();
        out.extend_from_slice(&w.flush());
        for (k, v) in events {
            w.header(k.as_bytes(), v.as_bytes());
        }
        w.end_game();
        out.extend_from_slice(&w.flush());
    }
    assert_eq!(out1, out2);
}

#[test]
fn records_do_not_leak_state() {
    let mut w = standard_writer(false);
    let first = row_of(&mut w, &[("Event", "e"), ("White", "w")]);
    let second = row_of(&mut w, &[]);
    let third = row_of(&mut w, &[("Event", "e"), ("White", "w")]);
    assert_eq!(first, third);
    assert_eq!(second, ",,,,,,,,,,,,,,,,\n");
}

#[test]
fn verbatim_mode_copies_special_fields() {
    let mut w = standard_writer(false);
    let row = row_of(
        &mut w,
        &[
            ("Event", "Rated game https://example.org/t/x"),
            ("Result", "1-0"),
            ("WhiteElo", "1500?"),
            ("TimeControl", "300+0"),
        ],
    );
    let got = cells(&row);
    assert_eq!(got[0], "Rated game https://example.org/t/x");
    assert_eq!(got[4], "1-0");
    assert_eq!(got[7], "1500?");
    assert_eq!(got[15], "300+0");
}

#[test]
fn outcome_table_codes() {
    let t = CodeTables::new();
    assert_eq!(s(&t.outcomes.lookup(b"1-0")), "1");
    assert_eq!(s(&t.outcomes.lookup(b"0-1")), "2");
    assert_eq!(s(&t.outcomes.lookup(b"1/2-1/2")), "3");
    assert_eq!(s(&t.outcomes.lookup(b"*")), "0");
    assert_eq!(s(&t.outcomes.lookup(b"2-0")), "");
}

#[test]
fn title_table_codes() {
    let t = CodeTables::new();
    assert_eq!(s(&t.titles.lookup(b"GM")), "1");
    assert_eq!(s(&t.titles.lookup(b"BOT")), "12");
    assert_eq!(s(&t.titles.lookup(b"gm")), "");
}

#[test]
fn opening_table_codes() {
    let t = CodeTables::new();
    assert_eq!(s(&t.openings.lookup(b"A00")), "0");
    assert_eq!(s(&t.openings.lookup(b"B01")), "101");
    assert_eq!(s(&t.openings.lookup(b"E99")), "499");
    assert_eq!(s(&t.openings.lookup(b"Z00")), "");
}

#[test]
fn ending_table_codes() {
    let t = CodeTables::new();
    assert_eq!(s(&t.endings.lookup(b"Normal")), "1");
    assert_eq!(s(&t.endings.lookup(b"Time forfeit")), "2");
    assert_eq!(s(&t.endings.lookup(b"Unplugged")), "");
}

#[test]
fn start_table_covers_all_positions() {
    let t = CodeTables::new();
    assert_eq!(s(&t.starts.lookup(b"bbnrkqnr")), "240");
    assert_eq!(s(&t.starts.lookup(b"rnbqkbnr")), "518");
    assert_eq!(s(&t.starts.lookup(b"xxxxxxxx")), "");
}

#[test]
fn schema_rejects_empty_list() {
    let names: Vec<Vec<u8>> = Vec::new();
    assert!(matches!(Tags::from(&names), Err(SchemaError::EmptySchema)));
}

#[test]
fn schema_rejects_unrecognized_name() {
    let names = vec![b("Event"), b("Round")];
    assert!(matches!(Tags::from(&names), Err(SchemaError::UnrecognizedName)));
}

#[test]
fn schema_rejects_duplicate_name() {
    let names = vec![b("Event"), b("Site"), b("Event")];
    assert!(matches!(Tags::from(&names), Err(SchemaError::DuplicateName)));
}

#[test]
fn schema_keeps_caller_order() {
    let names = vec![b("Result"), b("Event")];
    let t = Tags::from(&names).unwrap();
    assert_eq!(t.len(), 2);
    assert_eq!(t.last_index(), 1);
    assert_eq!(t.index(0).as_slice(), b"Result");
    assert_eq!(t.get_index(b"Event"), Some(1));
    assert_eq!(t.get_index(b"Round"), None);
}

#[test]
fn default_schema_lists() {
    let std_tags = Tags::default_for(false);
    let var_tags = Tags::default_for(true);
    assert_eq!(std_tags.len(), 17);
    assert_eq!(var_tags.len(), 17);
    assert_eq!(std_tags.index(14).as_slice(), b"Opening");
    assert_eq!(var_tags.index(14).as_slice(), b"FEN");
    assert_eq!(std_tags.get_index(b"FEN"), None);
}

#[test]
fn custom_schema_row() {
    let names = vec![b("White"), b("Black"), b("Result")];
    let tags = Tags::from(&names).unwrap();
    let mut w = CsvWriter::new(tags, true, false);
    w.write_header();
    let header = s(&w.flush());
    assert_eq!(header, "White,Black,Result\n");
    let row = row_of(&mut w, &[("White", "a"), ("Result", "1-0")]);
    assert_eq!(row, "a,,1\n");
}
