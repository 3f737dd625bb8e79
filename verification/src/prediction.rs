//! Predictions of a sequencer, one signal on a line.

use crate::binary32::Binary32;
use crate::field::{fields_of_line, Field, FieldModel};
use crate::text::{first_char, first_char_of, lemma_first_piece, pieces, TAB};
use vstd::prelude::*;
use vstd::utf8::encode_utf8_valid_utf8;

verus! {

/// The sign `#` that opens a comment line of a prediction source.
pub const COMMENT_SIGN: u8 = 0x23;

/// One row of a prediction: the base, the current, its deviation, and the
/// dwell time.
#[derive(Clone, Copy, Debug, PartialEq, Eq, Structural)]
pub struct Signal {
    /// base
    pub base: char,
    /// current
    pub current: Binary32,
    /// sd
    pub sd: Binary32,
    /// dwell
    pub dwell: Binary32,
}

impl Signal {
    /// create new Signal
    pub fn new(base: char, current: Binary32, sd: Binary32, dwell: Binary32) -> (signal: Signal)
        ensures
            signal == (Signal { base, current, sd, dwell }),
    {
        Signal { base, current, sd, dwell }
    }
}

/// A line that begins with the comment sign.
pub open spec fn is_comment(line: Seq<FieldModel>) -> bool {
    line.len() > 0 && line[0].text.len() > 0 && line[0].text[0] == COMMENT_SIGN
}

/// The comment lines of a text are the lines whose first byte is the
/// comment sign.
pub proof fn lemma_comment_begins_line(line: Seq<u8>)
    ensures
        is_comment(fields_of_line(line)) == (line.len() > 0 && line[0] == COMMENT_SIGN),
{
    lemma_first_piece(line, TAB);
    let first = pieces(line, TAB)[0];
    assert(fields_of_line(line)[0].text == first);
    if first.len() > 0 {
        assert(first[0] == line[0]);
    }
}

/// The signal on a line: the second field gives the base, its first
/// character; the three fields after it give current, deviation and dwell.
/// `None` where a field is missing, the second field has no character, or
/// one of the three numbers did not convert.
pub open spec fn signal_of(line: Seq<FieldModel>) -> Option<Signal> {
    if line.len() >= 5 && first_char_of(line[1].text) is Some && line[2].number is Some
        && line[3].number is Some && line[4].number is Some {
        Some(
            Signal {
                base: first_char_of(line[1].text)->0,
                current: line[2].number->0,
                sd: line[3].number->0,
                dwell: line[4].number->0,
            },
        )
    } else {
        None
    }
}

/// What a line adds to the prediction: nothing if it is a comment or gives
/// no signal, else its signal.
pub open spec fn entry_of(line: Seq<FieldModel>) -> Option<Signal> {
    if is_comment(line) {
        None
    } else {
        signal_of(line)
    }
}

/// The prediction that the lines hold: the signals of the lines that give
/// one, in the order of the lines.
pub open spec fn parsed(lines: Seq<Seq<FieldModel>>) -> Seq<Signal> {
    lines.filter_map(|line: Seq<FieldModel>| entry_of(line))
}

/// How many lines are no comments.
pub open spec fn data_count(lines: Seq<Seq<FieldModel>>) -> nat {
    lines.filter(|line: Seq<FieldModel>| !is_comment(line)).len()
}

/// How many lines are no comments and yet give no signal.
pub open spec fn dropped_count(lines: Seq<Seq<FieldModel>>) -> nat {
    lines.filter(|line: Seq<FieldModel>| !is_comment(line) && signal_of(line) is None).len()
}

/// Tells whether a line is a comment.
fn is_comment_line(line: &Vec<Field>) -> (r: bool)
    ensures
        r == is_comment(line.deep_view()),
{
    if line.len() == 0 {
        return false;
    }
    let text = line[0].text.as_str().as_bytes();
    assert(line.deep_view()[0].text == text@);
    text.len() > 0 && text[0] == COMMENT_SIGN
}

/// Reads the signal off a line.
fn read_signal(line: &Vec<Field>) -> (r: Option<Signal>)
    ensures
        r == signal_of(line.deep_view()),
{
    if line.len() < 5 {
        return None;
    }
    proof {
        let l = line.deep_view();
        assert(l[1] == line[1]@ && l[2] == line[2]@ && l[3] == line[3]@ && l[4] == line[4]@);
    }
    match (first_char(line[1].text.as_str()), line[2].number, line[3].number, line[4].number) {
        (Some(base), Some(current), Some(sd), Some(dwell)) => Some(
            Signal::new(base, current, sd, dwell),
        ),
        _ => None,
    }
}

/// Reads a prediction from the lines of its source, each cut into fields and
/// with the conversions made. Comment lines are passed over, and so is every
/// line that gives no signal: no line makes the reading fail.
pub fn parse(lines: &Vec<Vec<Field>>) -> (signals: Vec<Signal>)
    ensures
        signals@ == parsed(lines.deep_view()),
{
    let ghost all = lines.deep_view();
    let ghost entry = |line: Seq<FieldModel>| entry_of(line);
    let mut signals: Vec<Signal> = Vec::new();
    let mut i: usize = 0;
    assert(all.take(0) =~= Seq::empty());
    while i < lines.len()
        invariant
            i <= lines.len(),
            all == lines.deep_view(),
            entry == (|line: Seq<FieldModel>| entry_of(line)),
            signals@ == all.take(i as int).filter_map(entry),
        decreases lines.len() - i,
    {
        let line = &lines[i];
        proof {
            all.lemma_filter_map_take_succ(entry, i as int);
            assert(all[i as int] == line.deep_view());
        }
        if !is_comment_line(line) {
            if let Some(signal) = read_signal(line) {
                signals.push(signal);
            }
        }
        i += 1;
    }
    assert(all.take(lines.len() as int) == all);
    signals
}

/// Every line that is no comment either gives a row of the prediction or is
/// dropped: the rows and the dropped lines together are as many as the lines
/// that are no comments.
pub proof fn lemma_rows_and_dropped_lines(lines: Seq<Seq<FieldModel>>)
    ensures
        parsed(lines).len() + dropped_count(lines) == data_count(lines),
    decreases lines.len(),
{
    let data = |line: Seq<FieldModel>| !is_comment(line);
    let dropped = |line: Seq<FieldModel>| !is_comment(line) && signal_of(line) is None;
    if lines.len() == 0 {
        assert(lines.filter(data).len() == 0 && lines.filter(dropped).len() == 0) by {
            reveal(Seq::filter);
        }
    } else {
        let before = lines.drop_last();
        lemma_rows_and_dropped_lines(before);
        assert(lines == before.push(lines.last()));
        before.lemma_filter_push(lines.last(), data);
        before.lemma_filter_push(lines.last(), dropped);
    }
}

/// A prediction with one line that gives no signal has one row fewer than
/// its source has lines that are no comments.
pub proof fn lemma_one_dropped_line(lines: Seq<Seq<FieldModel>>)
    requires
        dropped_count(lines) == 1,
    ensures
        parsed(lines).len() == data_count(lines) - 1,
{
    lemma_rows_and_dropped_lines(lines);
}

/// The text of a field gives a base exactly if it is not empty.
pub proof fn lemma_base_of_field(field: Field)
    ensures
        first_char_of(field@.text) is Some <==> field@.text.len() > 0,
{
    encode_utf8_valid_utf8(field.text@);
}

} // verus!
