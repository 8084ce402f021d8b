//! The recognized field names, the header labels of minified mode, and the
//! classification of each field name into the kind that drives its transform.

use vstd::prelude::*;

use crate::bytes::bytes_eq;

verus! {

/// The byte string `Event`.
pub open spec fn n_event() -> Seq<u8> {
    seq![69u8, 118u8, 101u8, 110u8, 116u8]
}

/// The byte string `Event`.
pub fn name_event() -> (v: Vec<u8>)
    ensures
        v@ == n_event(),
{
    let v: Vec<u8> = vec![69u8, 118u8, 101u8, 110u8, 116u8];
    assert(v@ =~= n_event());
    v
}

/// The byte string `Site`.
pub open spec fn n_site() -> Seq<u8> {
    seq![83u8, 105u8, 116u8, 101u8]
}

/// The byte string `Site`.
pub fn name_site() -> (v: Vec<u8>)
    ensures
        v@ == n_site(),
{
    let v: Vec<u8> = vec![83u8, 105u8, 116u8, 101u8];
    assert(v@ =~= n_site());
    v
}

/// The byte string `White`.
pub open spec fn n_white() -> Seq<u8> {
    seq![87u8, 104u8, 105u8, 116u8, 101u8]
}

/// The byte string `White`.
pub fn name_white() -> (v: Vec<u8>)
    ensures
        v@ == n_white(),
{
    let v: Vec<u8> = vec![87u8, 104u8, 105u8, 116u8, 101u8];
    assert(v@ =~= n_white());
    v
}

/// The byte string `Black`.
pub open spec fn n_black() -> Seq<u8> {
    seq![66u8, 108u8, 97u8, 99u8, 107u8]
}

/// The byte string `Black`.
pub fn name_black() -> (v: Vec<u8>)
    ensures
        v@ == n_black(),
{
    let v: Vec<u8> = vec![66u8, 108u8, 97u8, 99u8, 107u8];
    assert(v@ =~= n_black());
    v
}

/// The byte string `Result`.
pub open spec fn n_result() -> Seq<u8> {
    seq![82u8, 101u8, 115u8, 117u8, 108u8, 116u8]
}

/// The byte string `Result`.
pub fn name_result() -> (v: Vec<u8>)
    ensures
        v@ == n_result(),
{
    let v: Vec<u8> = vec![82u8, 101u8, 115u8, 117u8, 108u8, 116u8];
    assert(v@ =~= n_result());
    v
}

/// The byte string `UTCDate`.
pub open spec fn n_utc_date() -> Seq<u8> {
    seq![85u8, 84u8, 67u8, 68u8, 97u8, 116u8, 101u8]
}

/// The byte string `UTCDate`.
pub fn name_utc_date() -> (v: Vec<u8>)
    ensures
        v@ == n_utc_date(),
{
    let v: Vec<u8> = vec![85u8, 84u8, 67u8, 68u8, 97u8, 116u8, 101u8];
    assert(v@ =~= n_utc_date());
    v
}

/// The byte string `UTCTime`.
pub open spec fn n_utc_time() -> Seq<u8> {
    seq![85u8, 84u8, 67u8, 84u8, 105u8, 109u8, 101u8]
}

/// The byte string `UTCTime`.
pub fn name_utc_time() -> (v: Vec<u8>)
    ensures
        v@ == n_utc_time(),
{
    let v: Vec<u8> = vec![85u8, 84u8, 67u8, 84u8, 105u8, 109u8, 101u8];
    assert(v@ =~= n_utc_time());
    v
}

/// The byte string `WhiteElo`.
pub open spec fn n_white_elo() -> Seq<u8> {
    seq![87u8, 104u8, 105u8, 116u8, 101u8, 69u8, 108u8, 111u8]
}

/// The byte string `WhiteElo`.
pub fn name_white_elo() -> (v: Vec<u8>)
    ensures
        v@ == n_white_elo(),
{
    let v: Vec<u8> = vec![87u8, 104u8, 105u8, 116u8, 101u8, 69u8, 108u8, 111u8];
    assert(v@ =~= n_white_elo());
    v
}

/// The byte string `BlackElo`.
pub open spec fn n_black_elo() -> Seq<u8> {
    seq![66u8, 108u8, 97u8, 99u8, 107u8, 69u8, 108u8, 111u8]
}

/// The byte string `BlackElo`.
pub fn name_black_elo() -> (v: Vec<u8>)
    ensures
        v@ == n_black_elo(),
{
    let v: Vec<u8> = vec![66u8, 108u8, 97u8, 99u8, 107u8, 69u8, 108u8, 111u8];
    assert(v@ =~= n_black_elo());
    v
}

/// The byte string `WhiteRatingDiff`.
pub open spec fn n_white_rating_diff() -> Seq<u8> {
    seq![87u8, 104u8, 105u8, 116u8, 101u8, 82u8, 97u8, 116u8, 105u8, 110u8, 103u8, 68u8, 105u8, 102u8, 102u8]
}

/// The byte string `WhiteRatingDiff`.
pub fn name_white_rating_diff() -> (v: Vec<u8>)
    ensures
        v@ == n_white_rating_diff(),
{
    let v: Vec<u8> = vec![87u8, 104u8, 105u8, 116u8, 101u8, 82u8, 97u8, 116u8, 105u8, 110u8, 103u8, 68u8, 105u8, 102u8, 102u8];
    assert(v@ =~= n_white_rating_diff());
    v
}

/// The byte string `BlackRatingDiff`.
pub open spec fn n_black_rating_diff() -> Seq<u8> {
    seq![66u8, 108u8, 97u8, 99u8, 107u8, 82u8, 97u8, 116u8, 105u8, 110u8, 103u8, 68u8, 105u8, 102u8, 102u8]
}

/// The byte string `BlackRatingDiff`.
pub fn name_black_rating_diff() -> (v: Vec<u8>)
    ensures
        v@ == n_black_rating_diff(),
{
    let v: Vec<u8> = vec![66u8, 108u8, 97u8, 99u8, 107u8, 82u8, 97u8, 116u8, 105u8, 110u8, 103u8, 68u8, 105u8, 102u8, 102u8];
    assert(v@ =~= n_black_rating_diff());
    v
}

/// The byte string `WhiteTitle`.
pub open spec fn n_white_title() -> Seq<u8> {
    seq![87u8, 104u8, 105u8, 116u8, 101u8, 84u8, 105u8, 116u8, 108u8, 101u8]
}

/// The byte string `WhiteTitle`.
pub fn name_white_title() -> (v: Vec<u8>)
    ensures
        v@ == n_white_title(),
{
    let v: Vec<u8> = vec![87u8, 104u8, 105u8, 116u8, 101u8, 84u8, 105u8, 116u8, 108u8, 101u8];
    assert(v@ =~= n_white_title());
    v
}

/// The byte string `BlackTitle`.
pub open spec fn n_black_title() -> Seq<u8> {
    seq![66u8, 108u8, 97u8, 99u8, 107u8, 84u8, 105u8, 116u8, 108u8, 101u8]
}

/// The byte string `BlackTitle`.
pub fn name_black_title() -> (v: Vec<u8>)
    ensures
        v@ == n_black_title(),
{
    let v: Vec<u8> = vec![66u8, 108u8, 97u8, 99u8, 107u8, 84u8, 105u8, 116u8, 108u8, 101u8];
    assert(v@ =~= n_black_title());
    v
}

/// The byte string `ECO`.
pub open spec fn n_eco() -> Seq<u8> {
    seq![69u8, 67u8, 79u8]
}

/// The byte string `ECO`.
pub fn name_eco() -> (v: Vec<u8>)
    ensures
        v@ == n_eco(),
{
    let v: Vec<u8> = vec![69u8, 67u8, 79u8];
    assert(v@ =~= n_eco());
    v
}

/// The byte string `Opening`.
pub open spec fn n_opening() -> Seq<u8> {
    seq![79u8, 112u8, 101u8, 110u8, 105u8, 110u8, 103u8]
}

/// The byte string `Opening`.
pub fn name_opening() -> (v: Vec<u8>)
    ensures
        v@ == n_opening(),
{
    let v: Vec<u8> = vec![79u8, 112u8, 101u8, 110u8, 105u8, 110u8, 103u8];
    assert(v@ =~= n_opening());
    v
}

/// The byte string `TimeControl`.
pub open spec fn n_time_control() -> Seq<u8> {
    seq![84u8, 105u8, 109u8, 101u8, 67u8, 111u8, 110u8, 116u8, 114u8, 111u8, 108u8]
}

/// The byte string `TimeControl`.
pub fn name_time_control() -> (v: Vec<u8>)
    ensures
        v@ == n_time_control(),
{
    let v: Vec<u8> = vec![84u8, 105u8, 109u8, 101u8, 67u8, 111u8, 110u8, 116u8, 114u8, 111u8, 108u8];
    assert(v@ =~= n_time_control());
    v
}

/// The byte string `Termination`.
pub open spec fn n_termination() -> Seq<u8> {
    seq![84u8, 101u8, 114u8, 109u8, 105u8, 110u8, 97u8, 116u8, 105u8, 111u8, 110u8]
}

/// The byte string `Termination`.
pub fn name_termination() -> (v: Vec<u8>)
    ensures
        v@ == n_termination(),
{
    let v: Vec<u8> = vec![84u8, 101u8, 114u8, 109u8, 105u8, 110u8, 97u8, 116u8, 105u8, 111u8, 110u8];
    assert(v@ =~= n_termination());
    v
}

/// The byte string `FEN`.
pub open spec fn n_fen() -> Seq<u8> {
    seq![70u8, 69u8, 78u8]
}

/// The byte string `FEN`.
pub fn name_fen() -> (v: Vec<u8>)
    ensures
        v@ == n_fen(),
{
    let v: Vec<u8> = vec![70u8, 69u8, 78u8];
    assert(v@ =~= n_fen());
    v
}

/// The byte string `Tournament`.
pub open spec fn l_tournament() -> Seq<u8> {
    seq![84u8, 111u8, 117u8, 114u8, 110u8, 97u8, 109u8, 101u8, 110u8, 116u8]
}

/// The byte string `Tournament`.
pub fn label_tournament() -> (v: Vec<u8>)
    ensures
        v@ == l_tournament(),
{
    let v: Vec<u8> = vec![84u8, 111u8, 117u8, 114u8, 110u8, 97u8, 109u8, 101u8, 110u8, 116u8];
    assert(v@ =~= l_tournament());
    v
}

/// The byte string `Game`.
pub open spec fn l_game() -> Seq<u8> {
    seq![71u8, 97u8, 109u8, 101u8]
}

/// The byte string `Game`.
pub fn label_game() -> (v: Vec<u8>)
    ensures
        v@ == l_game(),
{
    let v: Vec<u8> = vec![71u8, 97u8, 109u8, 101u8];
    assert(v@ =~= l_game());
    v
}

/// The byte string `WhiteRating`.
pub open spec fn l_white_rating() -> Seq<u8> {
    seq![87u8, 104u8, 105u8, 116u8, 101u8, 82u8, 97u8, 116u8, 105u8, 110u8, 103u8]
}

/// The byte string `WhiteRating`.
pub fn label_white_rating() -> (v: Vec<u8>)
    ensures
        v@ == l_white_rating(),
{
    let v: Vec<u8> = vec![87u8, 104u8, 105u8, 116u8, 101u8, 82u8, 97u8, 116u8, 105u8, 110u8, 103u8];
    assert(v@ =~= l_white_rating());
    v
}

/// The byte string `WhiteRatingProvisional`.
pub open spec fn l_white_rating_provisional() -> Seq<u8> {
    seq![87u8, 104u8, 105u8, 116u8, 101u8, 82u8, 97u8, 116u8, 105u8, 110u8, 103u8, 80u8, 114u8, 111u8, 118u8, 105u8, 115u8, 105u8, 111u8, 110u8, 97u8, 108u8]
}

/// The byte string `WhiteRatingProvisional`.
pub fn label_white_rating_provisional() -> (v: Vec<u8>)
    ensures
        v@ == l_white_rating_provisional(),
{
    let v: Vec<u8> = vec![87u8, 104u8, 105u8, 116u8, 101u8, 82u8, 97u8, 116u8, 105u8, 110u8, 103u8, 80u8, 114u8, 111u8, 118u8, 105u8, 115u8, 105u8, 111u8, 110u8, 97u8, 108u8];
    assert(v@ =~= l_white_rating_provisional());
    v
}

/// The byte string `BlackRating`.
pub open spec fn l_black_rating() -> Seq<u8> {
    seq![66u8, 108u8, 97u8, 99u8, 107u8, 82u8, 97u8, 116u8, 105u8, 110u8, 103u8]
}

/// The byte string `BlackRating`.
pub fn label_black_rating() -> (v: Vec<u8>)
    ensures
        v@ == l_black_rating(),
{
    let v: Vec<u8> = vec![66u8, 108u8, 97u8, 99u8, 107u8, 82u8, 97u8, 116u8, 105u8, 110u8, 103u8];
    assert(v@ =~= l_black_rating());
    v
}

/// The byte string `BlackRatingProvisional`.
pub open spec fn l_black_rating_provisional() -> Seq<u8> {
    seq![66u8, 108u8, 97u8, 99u8, 107u8, 82u8, 97u8, 116u8, 105u8, 110u8, 103u8, 80u8, 114u8, 111u8, 118u8, 105u8, 115u8, 105u8, 111u8, 110u8, 97u8, 108u8]
}

/// The byte string `BlackRatingProvisional`.
pub fn label_black_rating_provisional() -> (v: Vec<u8>)
    ensures
        v@ == l_black_rating_provisional(),
{
    let v: Vec<u8> = vec![66u8, 108u8, 97u8, 99u8, 107u8, 82u8, 97u8, 116u8, 105u8, 110u8, 103u8, 80u8, 114u8, 111u8, 118u8, 105u8, 115u8, 105u8, 111u8, 110u8, 97u8, 108u8];
    assert(v@ =~= l_black_rating_provisional());
    v
}

/// The byte string `ClockInitialTime`.
pub open spec fn l_clock_initial_time() -> Seq<u8> {
    seq![67u8, 108u8, 111u8, 99u8, 107u8, 73u8, 110u8, 105u8, 116u8, 105u8, 97u8, 108u8, 84u8, 105u8, 109u8, 101u8]
}

/// The byte string `ClockInitialTime`.
pub fn label_clock_initial_time() -> (v: Vec<u8>)
    ensures
        v@ == l_clock_initial_time(),
{
    let v: Vec<u8> = vec![67u8, 108u8, 111u8, 99u8, 107u8, 73u8, 110u8, 105u8, 116u8, 105u8, 97u8, 108u8, 84u8, 105u8, 109u8, 101u8];
    assert(v@ =~= l_clock_initial_time());
    v
}

/// The byte string `ClockIncrement`.
pub open spec fn l_clock_increment() -> Seq<u8> {
    seq![67u8, 108u8, 111u8, 99u8, 107u8, 73u8, 110u8, 99u8, 114u8, 101u8, 109u8, 101u8, 110u8, 116u8]
}

/// The byte string `ClockIncrement`.
pub fn label_clock_increment() -> (v: Vec<u8>)
    ensures
        v@ == l_clock_increment(),
{
    let v: Vec<u8> = vec![67u8, 108u8, 111u8, 99u8, 107u8, 73u8, 110u8, 99u8, 114u8, 101u8, 109u8, 101u8, 110u8, 116u8];
    assert(v@ =~= l_clock_increment());
    v
}

/// The byte string `StartingPosition`.
pub open spec fn l_starting_position() -> Seq<u8> {
    seq![83u8, 116u8, 97u8, 114u8, 116u8, 105u8, 110u8, 103u8, 80u8, 111u8, 115u8, 105u8, 116u8, 105u8, 111u8, 110u8]
}

/// The byte string `StartingPosition`.
pub fn label_starting_position() -> (v: Vec<u8>)
    ensures
        v@ == l_starting_position(),
{
    let v: Vec<u8> = vec![83u8, 116u8, 97u8, 114u8, 116u8, 105u8, 110u8, 103u8, 80u8, 111u8, 115u8, 105u8, 116u8, 105u8, 111u8, 110u8];
    assert(v@ =~= l_starting_position());
    v
}

/// How a schema position is rewritten in minified mode. The kind of a field
/// is fixed by its name; every name outside the table below is `Plain`.
#[derive(Clone, Copy, PartialEq, Eq, Structural, Debug)]
pub enum FieldKind {
    /// Copied unchanged.
    Plain,
    /// A tournament or game link: only the trailing path segment is kept.
    Link,
    /// The game outcome, replaced by its code.
    Outcome,
    /// A player rating, expanded into the rating and a provisional marker.
    Rating,
    /// A rating delta, with an explicit leading plus sign stripped.
    RatingDiff,
    /// A player title, replaced by its code.
    Title,
    /// An opening classification, replaced by its code.
    Opening,
    /// A time control, expanded into initial time and increment.
    Clock,
    /// A termination reason, replaced by its code.
    Ending,
    /// A starting position, reduced to the code of its first rank
    /// (variant games only).
    Start,
}

/// The kind of a field name.
pub open spec fn kind_of(name: Seq<u8>) -> FieldKind {
    if name == n_event() || name == n_site() {
        FieldKind::Link
    } else if name == n_result() {
        FieldKind::Outcome
    } else if name == n_white_elo() || name == n_black_elo() {
        FieldKind::Rating
    } else if name == n_white_rating_diff() || name == n_black_rating_diff() {
        FieldKind::RatingDiff
    } else if name == n_white_title() || name == n_black_title() {
        FieldKind::Title
    } else if name == n_eco() {
        FieldKind::Opening
    } else if name == n_time_control() {
        FieldKind::Clock
    } else if name == n_termination() {
        FieldKind::Ending
    } else if name == n_fen() {
        FieldKind::Start
    } else {
        FieldKind::Plain
    }
}

/// The kind of a field name.
pub fn kind_of_name(name: &[u8]) -> (k: FieldKind)
    ensures
        k == kind_of(name@),
{
    if bytes_eq(name, &name_event()) || bytes_eq(name, &name_site()) {
        FieldKind::Link
    } else if bytes_eq(name, &name_result()) {
        FieldKind::Outcome
    } else if bytes_eq(name, &name_white_elo()) || bytes_eq(name, &name_black_elo()) {
        FieldKind::Rating
    } else if bytes_eq(name, &name_white_rating_diff()) || bytes_eq(name, &name_black_rating_diff()) {
        FieldKind::RatingDiff
    } else if bytes_eq(name, &name_white_title()) || bytes_eq(name, &name_black_title()) {
        FieldKind::Title
    } else if bytes_eq(name, &name_eco()) {
        FieldKind::Opening
    } else if bytes_eq(name, &name_time_control()) {
        FieldKind::Clock
    } else if bytes_eq(name, &name_termination()) {
        FieldKind::Ending
    } else if bytes_eq(name, &name_fen()) {
        FieldKind::Start
    } else {
        FieldKind::Plain
    }
}

} // verus!
