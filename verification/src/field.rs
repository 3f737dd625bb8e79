//! Lines of tab-separated fields.

use crate::binary32::Binary32;
use crate::text::{lines, lines_of, pieces, split, TAB};
use vstd::prelude::*;
use vstd::string::StringSliceAdditionalSpecFns;
use vstd::utf8::encode_utf8;

verus! {

/// One tab-separated field of a line, with the number that it stands for.
///
/// The library cuts the text and leaves the number open; whoever reads the
/// source fills it in before the lines are handed on: `number` is the
/// binary32 number that the text denotes, if it denotes one.
#[derive(Debug)]
pub struct Field {
    pub text: String,
    pub number: Option<Binary32>,
}

/// What a field holds: the bytes of its text, and its number.
pub struct FieldModel {
    pub text: Seq<u8>,
    pub number: Option<Binary32>,
}

impl View for Field {
    type V = FieldModel;

    open spec fn view(&self) -> FieldModel {
        FieldModel { text: encode_utf8(self.text@), number: self.number }
    }
}

impl DeepView for Field {
    type V = FieldModel;

    open spec fn deep_view(&self) -> FieldModel {
        self@
    }
}

/// A field with its number still open.
pub open spec fn unread(text: Seq<u8>) -> FieldModel {
    FieldModel { text, number: None }
}

/// The fields of one line, numbers open.
pub open spec fn fields_of_line(line: Seq<u8>) -> Seq<FieldModel> {
    pieces(line, TAB).map_values(|t: Seq<u8>| unread(t))
}

/// The fields of every line of a text, numbers open.
pub open spec fn fields_of(text: Seq<u8>) -> Seq<Seq<FieldModel>> {
    lines_of(text).map_values(|line: Seq<u8>| fields_of_line(line))
}

impl Field {
    /// A field with its number still open.
    pub fn new(text: String) -> (field: Field)
        ensures
            field@ == unread(encode_utf8(text@)),
    {
        Field { text, number: None }
    }
}

/// Cuts one line at its tabs.
pub fn line_fields(line: &str) -> (row: Vec<Field>)
    ensures
        row.deep_view() == fields_of_line(line.spec_bytes()),
{
    let parts = split(line, TAB);
    let mut row: Vec<Field> = Vec::new();
    let mut i: usize = 0;
    while i < parts.len()
        invariant
            i <= parts.len(),
            row.len() == i,
            forall|j: int| 0 <= j < i ==> (#[trigger] row[j])@ == unread(parts[j].spec_bytes()),
        decreases parts.len() - i,
    {
        row.push(Field::new(parts[i].to_owned()));
        i += 1;
    }
    row
}

/// Cuts a text into lines and each line into its fields.
pub fn fields(text: &str) -> (table: Vec<Vec<Field>>)
    ensures
        table.deep_view() == fields_of(text.spec_bytes()),
{
    let all = lines(text);
    let mut table: Vec<Vec<Field>> = Vec::new();
    let mut i: usize = 0;
    while i < all.len()
        invariant
            i <= all.len(),
            table.len() == i,
            forall|j: int|
                0 <= j < i ==> (#[trigger] table[j]).deep_view() == fields_of_line(
                    all[j].spec_bytes(),
                ),
        decreases all.len() - i,
    {
        table.push(line_fields(all[i]));
        i += 1;
    }
    table
}

} // verus!
