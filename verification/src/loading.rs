//! What loading a model means: which lines give rows, which table the rows
//! fill, and when the load fails with which error.

use crate::field::{fields_of_line, FieldModel};
use crate::kmer::{
    is_nucleotide_kmer, lemma_nucleotide_kmers_count, nucleotide_kmers, KMER_COUNT, KMER_SIZE,
};
use crate::model::SignalModel;
use crate::text::{begins_with, lemma_first_piece, pieces, TAB};
use vstd::prelude::*;
use vstd::set_lib::lemma_subset_equality;

verus! {

/// Why a model could not be had.
#[derive(Clone, Copy, Debug, PartialEq, Eq, Structural)]
pub enum SquigglerError {
    /// A k-mer stands on two lines.
    NotValidModel,
    /// Some k-mer over the four nucleotides has no line.
    NotEnoughData,
    /// The source could not be read.
    IoError,
    /// A line lacks a field, its k-mer has not the length of a k-mer, or one
    /// of its four numbers does not convert.
    ParseError,
}

/// The word that a header line begins with: `kmer`.
pub open spec fn header_word() -> Seq<u8> {
    seq![0x6Bu8, 0x6Du8, 0x65u8, 0x72u8]
}

/// A line of a model source that names the columns and holds no data.
pub open spec fn is_header(line: Seq<FieldModel>) -> bool {
    line.len() > 0 && begins_with(line[0].text, header_word())
}

/// The header lines of a text are the lines that begin with the header
/// word.
pub proof fn lemma_header_begins_line(line: Seq<u8>)
    ensures
        is_header(fields_of_line(line)) == begins_with(line, header_word()),
{
    lemma_first_piece(line, TAB);
    let first = pieces(line, TAB)[0];
    let word = header_word();
    assert(fields_of_line(line)[0].text == first);
    if begins_with(line, word) {
        if first.len() < word.len() {
            assert(line.subrange(0, word.len() as int)[first.len() as int] == word[first.len() as int]);
        }
        assert(first.subrange(0, word.len() as int) =~= line.subrange(0, word.len() as int));
    }
    if begins_with(first, word) {
        assert(line.subrange(0, word.len() as int) =~= first.subrange(0, word.len() as int));
    }
}

/// The k-mer and the model on a data line: the first field is the k-mer, the
/// four after it are level mean, level deviation, noise mean and noise
/// deviation. `None` where a field is missing, the k-mer has another length
/// than `KMER_SIZE`, or one of the four numbers did not convert.
pub open spec fn row_of(line: Seq<FieldModel>) -> Option<(Seq<u8>, SignalModel)> {
    if line.len() >= 5 && line[0].text.len() == KMER_SIZE && line[1].number is Some
        && line[2].number is Some && line[3].number is Some && line[4].number is Some {
        Some(
            (
                line[0].text,
                SignalModel {
                    level_mean: line[1].number->0,
                    level_stdv: line[2].number->0,
                    sd_mean: line[3].number->0,
                    sd_stdv: line[4].number->0,
                },
            ),
        )
    } else {
        None
    }
}

/// The table that the lines fill, read from the first line on, or the error
/// of the first line that cannot be taken: `ParseError` where the line gives
/// no row, `NotValidModel` where its k-mer was on an earlier line.
pub open spec fn scanned(lines: Seq<Seq<FieldModel>>) -> Result<
    Map<Seq<u8>, SignalModel>,
    SquigglerError,
>
    decreases lines.len(),
{
    if lines.len() == 0 {
        Ok(Map::empty())
    } else {
        match scanned(lines.drop_last()) {
            Err(e) => Err(e),
            Ok(table) => if is_header(lines.last()) {
                Ok(table)
            } else {
                match row_of(lines.last()) {
                    None => Err(SquigglerError::ParseError),
                    Some((kmer, model)) => if table.contains_key(kmer) {
                        Err(SquigglerError::NotValidModel)
                    } else {
                        Ok(table.insert(kmer, model))
                    },
                }
            },
        }
    }
}

/// The table has a model for every k-mer over the four nucleotides.
pub open spec fn is_complete(table: Map<Seq<u8>, SignalModel>) -> bool {
    forall|kmer: Seq<u8>| is_nucleotide_kmer(kmer) ==> #[trigger] table.contains_key(kmer)
}

/// What loading the lines gives: the table they fill if it is complete,
/// `NotEnoughData` if they fill one that is not, else the error of the first
/// line that cannot be taken.
pub open spec fn loaded(lines: Seq<Seq<FieldModel>>) -> Result<
    Map<Seq<u8>, SignalModel>,
    SquigglerError,
> {
    match scanned(lines) {
        Err(e) => Err(e),
        Ok(table) => if is_complete(table) {
            Ok(table)
        } else {
            Err(SquigglerError::NotEnoughData)
        },
    }
}

/// Once a line cannot be taken, later lines change nothing.
pub proof fn lemma_scan_error_persists(lines: Seq<Seq<FieldModel>>, upto: int)
    requires
        0 <= upto <= lines.len(),
        scanned(lines.take(upto)) is Err,
    ensures
        scanned(lines) == scanned(lines.take(upto)),
    decreases lines.len() - upto,
{
    if upto == lines.len() {
        assert(lines.take(upto) == lines);
    } else {
        assert(lines.take(upto + 1).drop_last() == lines.take(upto));
        lemma_scan_error_persists(lines, upto + 1);
    }
}

/// The k-mer of the row that a line gives.
pub open spec fn kmer_on(line: Seq<FieldModel>) -> Seq<u8> {
    match row_of(line) {
        Some(row) => row.0,
        None => Seq::empty(),
    }
}

/// The model of the row that a line gives.
pub open spec fn model_on(line: Seq<FieldModel>) -> SignalModel
    recommends
        row_of(line) is Some,
{
    let row = row_of(line)->0;
    row.1
}

/// The error of a load from a source that fails behind the given lines: the
/// error of the first of them that cannot be taken, else `IoError`.
pub open spec fn failure_of(lines: Seq<Seq<FieldModel>>) -> SquigglerError {
    match scanned(lines) {
        Err(e) => e,
        Ok(_) => SquigglerError::IoError,
    }
}

/// Loading the lines gives this table.
pub open spec fn loads_to(lines: Seq<Seq<FieldModel>>, table: Map<Seq<u8>, SignalModel>) -> bool {
    loaded(lines) matches Ok(t) && t == table
}

/// Loading the lines fails with this error.
pub open spec fn fails_with(lines: Seq<Seq<FieldModel>>, error: SquigglerError) -> bool {
    loaded(lines) matches Err(e) && e == error
}

/// A load fails in one of three ways: a line that gives no row, a k-mer that
/// comes again, or a table that is not complete.
pub proof fn lemma_load_errors(lines: Seq<Seq<FieldModel>>)
    ensures
        scanned(lines) matches Err(e) ==> e == SquigglerError::ParseError || e
            == SquigglerError::NotValidModel,
        loaded(lines) matches Err(e) ==> e == SquigglerError::ParseError || e
            == SquigglerError::NotValidModel || e == SquigglerError::NotEnoughData,
    decreases lines.len(),
{
    if lines.len() > 0 {
        lemma_load_errors(lines.drop_last());
    }
}

/// The line is a data line that gives a row.
pub open spec fn is_row(line: Seq<FieldModel>) -> bool {
    !is_header(line) && row_of(line) is Some
}

/// The line is a data line that gives a row for this k-mer.
pub open spec fn is_row_of(line: Seq<FieldModel>, kmer: Seq<u8>) -> bool {
    is_row(line) && kmer_on(line) == kmer
}

/// Some data line gives a row for this k-mer.
pub open spec fn has_row_of(lines: Seq<Seq<FieldModel>>, kmer: Seq<u8>) -> bool {
    exists|i: int| 0 <= i < lines.len() && is_row_of(#[trigger] lines[i], kmer)
}

/// Every data line gives a row.
pub open spec fn all_convert(lines: Seq<Seq<FieldModel>>) -> bool {
    forall|i: int|
        0 <= i < lines.len() && !is_header(#[trigger] lines[i]) ==> row_of(lines[i]) is Some
}

/// No two data lines give a row for one k-mer.
pub open spec fn no_kmer_twice(lines: Seq<Seq<FieldModel>>) -> bool {
    forall|i: int, j: int|
        0 <= i < j < lines.len() && is_row(#[trigger] lines[i]) && is_row(#[trigger] lines[j])
            ==> kmer_on(lines[i]) != kmer_on(lines[j])
}

/// How many data lines there are.
pub open spec fn data_count(lines: Seq<Seq<FieldModel>>) -> nat {
    lines.filter(|line: Seq<FieldModel>| !is_header(line)).len()
}

/// The k-mers over the four nucleotides for which some data line gives a row.
pub open spec fn kmers_given(lines: Seq<Seq<FieldModel>>) -> Set<Seq<u8>> {
    Set::new(|kmer: Seq<u8>| is_nucleotide_kmer(kmer) && has_row_of(lines, kmer))
}

/// Where every data line gives a row and no k-mer comes twice, the lines
/// fill a table: it holds the k-mers of the data lines and no others, each
/// with the model of its line, and as many entries as there are data lines.
pub proof fn lemma_scan_of_good_lines(lines: Seq<Seq<FieldModel>>)
    requires
        all_convert(lines),
        no_kmer_twice(lines),
    ensures
        scanned(lines) is Ok,
        forall|kmer: Seq<u8>| #[trigger]
            scanned(lines)->Ok_0.contains_key(kmer) <==> has_row_of(lines, kmer),
        forall|i: int|
            0 <= i < lines.len() && !is_header(#[trigger] lines[i]) ==> scanned(
                lines,
            )->Ok_0[kmer_on(lines[i])] == model_on(lines[i]),
        scanned(lines)->Ok_0.dom().finite(),
        scanned(lines)->Ok_0.dom().len() == data_count(lines),
    decreases lines.len(),
{
    let data = |line: Seq<FieldModel>| !is_header(line);
    if lines.len() == 0 {
        assert(lines.filter(data) =~= Seq::empty()) by {
            reveal(Seq::filter);
        }
        assert(scanned(lines)->Ok_0.dom() =~= Set::empty());
    } else {
        let before = lines.drop_last();
        let last = lines.last();
        assert(lines == before.push(last));
        assert(forall|i: int| 0 <= i < before.len() ==> before[i] == lines[i]);
        assert(all_convert(before));
        assert(no_kmer_twice(before)) by {
            assert forall|i: int, j: int|
                0 <= i < j < before.len() && is_row(#[trigger] before[i]) && is_row(
                    #[trigger] before[j],
                ) implies kmer_on(before[i]) != kmer_on(before[j]) by {
                assert(before[i] == lines[i] && before[j] == lines[j]);
            }
        }
        lemma_scan_of_good_lines(before);
        before.lemma_filter_push(last, data);
        let earlier = scanned(before)->Ok_0;
        if is_header(last) {
            assert forall|kmer: Seq<u8>| has_row_of(lines, kmer) <==> has_row_of(
                before,
                kmer,
            ) by {
                if has_row_of(lines, kmer) {
                    let i = choose|i: int| 0 <= i < lines.len() && is_row_of(lines[i], kmer);
                    assert(is_row_of(before[i], kmer));
                }
                if has_row_of(before, kmer) {
                    let i = choose|i: int| 0 <= i < before.len() && is_row_of(before[i], kmer);
                    assert(is_row_of(lines[i], kmer));
                }
            }
        } else {
            assert(lines[lines.len() - 1] == last);
            let kmer = kmer_on(last);
            let model = model_on(last);
            if has_row_of(before, kmer) {
                let i = choose|i: int| 0 <= i < before.len() && is_row_of(before[i], kmer);
                assert(is_row_of(lines[i], kmer));
                assert(is_row_of(lines[lines.len() - 1], kmer));
            }
            assert(scanned(lines) == Ok::<Map<Seq<u8>, SignalModel>, SquigglerError>(
                earlier.insert(kmer, model),
            ));
            assert forall|other: Seq<u8>| #[trigger]
                earlier.insert(kmer, model).contains_key(other) <==> has_row_of(lines, other) by {
                if has_row_of(lines, other) {
                    let i = choose|i: int| 0 <= i < lines.len() && is_row_of(lines[i], other);
                    if i < before.len() {
                        assert(is_row_of(before[i], other));
                    }
                }
                if earlier.contains_key(other) {
                    let i = choose|i: int| 0 <= i < before.len() && is_row_of(before[i], other);
                    assert(is_row_of(lines[i], other));
                }
                if other == kmer {
                    assert(is_row_of(lines[lines.len() - 1], other));
                }
            }
            assert forall|i: int| 0 <= i < lines.len() && !is_header(#[trigger] lines[i]) implies
                earlier.insert(kmer, model)[kmer_on(lines[i])] == model_on(lines[i]) by {
                if i < before.len() {
                    assert(before[i] == lines[i]);
                    if kmer_on(lines[i]) == kmer {
                        assert(is_row_of(before[i], kmer));
                    }
                }
            }
            assert(earlier.insert(kmer, model).dom() =~= earlier.dom().insert(kmer));
        }
    }
}

/// A model with a row for every k-mer loads: where every data line gives
/// a row, no k-mer comes twice, and every k-mer over the four nucleotides
/// has its row, the load gives the table that the lines fill.
pub proof fn lemma_complete_model_loads(lines: Seq<Seq<FieldModel>>)
    requires
        all_convert(lines),
        no_kmer_twice(lines),
        forall|kmer: Seq<u8>| is_nucleotide_kmer(kmer) ==> has_row_of(lines, kmer),
    ensures
        loaded(lines) is Ok,
        loaded(lines) == scanned(lines),
{
    lemma_scan_of_good_lines(lines);
}

/// A line that gives no row is refused for that: where a data line gives no
/// row, and the data lines before it all give rows, no k-mer twice, the load
/// fails with `ParseError`.
pub proof fn lemma_bad_line_is_refused(lines: Seq<Seq<FieldModel>>, j: int)
    requires
        0 <= j < lines.len(),
        !is_header(lines[j]),
        row_of(lines[j]) is None,
        all_convert(lines.take(j)),
        no_kmer_twice(lines.take(j)),
    ensures
        fails_with(lines, SquigglerError::ParseError),
{
    lemma_scan_of_good_lines(lines.take(j));
    assert(lines.take(j + 1).drop_last() == lines.take(j));
    assert(lines.take(j + 1).last() == lines[j]);
    lemma_scan_error_persists(lines, j + 1);
}

/// A full model loads: where the data lines all give rows, for `KMER_COUNT`
/// k-mers over the four nucleotides, each once, the load gives a table, and
/// the table has `KMER_COUNT` entries.
pub proof fn lemma_full_model_loads(lines: Seq<Seq<FieldModel>>)
    requires
        all_convert(lines),
        no_kmer_twice(lines),
        forall|i: int|
            0 <= i < lines.len() && !is_header(#[trigger] lines[i]) ==> is_nucleotide_kmer(
                kmer_on(lines[i]),
            ),
        data_count(lines) == KMER_COUNT,
    ensures
        loaded(lines) is Ok,
        loaded(lines) == scanned(lines),
        loaded(lines)->Ok_0.dom().finite(),
        loaded(lines)->Ok_0.dom().len() == KMER_COUNT,
        loaded(lines)->Ok_0.dom() == nucleotide_kmers(),
{
    lemma_scan_of_good_lines(lines);
    lemma_nucleotide_kmers_count();
    let table = scanned(lines)->Ok_0;
    assert forall|kmer: Seq<u8>| table.dom().contains(kmer) implies nucleotide_kmers().contains(
        kmer,
    ) by {
        assert(table.contains_key(kmer));
        let i = choose|i: int| 0 <= i < lines.len() && is_row_of(lines[i], kmer);
    }
    lemma_subset_equality(table.dom(), nucleotide_kmers());
    assert forall|kmer: Seq<u8>| is_nucleotide_kmer(kmer) implies #[trigger] table.contains_key(
        kmer,
    ) by {
        assert(nucleotide_kmers().contains(kmer));
    }
}

/// A model with a k-mer on two lines is refused for that: where two data
/// lines give rows for one k-mer, and every data line before the second of
/// them gives a row, the load fails with `NotValidModel`.
pub proof fn lemma_repeated_kmer_is_refused(lines: Seq<Seq<FieldModel>>, i: int, j: int)
    requires
        0 <= i < j < lines.len(),
        !is_header(lines[i]),
        !is_header(lines[j]),
        row_of(lines[i]) is Some,
        row_of(lines[j]) is Some,
        kmer_on(lines[i]) == kmer_on(lines[j]),
        all_convert(lines.take(j)),
    ensures
        fails_with(lines, SquigglerError::NotValidModel),
{
    let before = lines.take(j);
    lemma_scan_of_converting_lines(before);
    assert(lines.take(j + 1).drop_last() == before);
    assert(lines.take(j + 1).last() == lines[j]);
    if scanned(before) is Ok {
        assert(before[i] == lines[i]);
        assert(is_row_of(before[i], kmer_on(lines[j])));
    }
    lemma_scan_error_persists(lines, j + 1);
}

/// Where every data line gives a row, the only error of the scan is
/// `NotValidModel`, and a table that comes out holds the k-mer of every data
/// line.
pub proof fn lemma_scan_of_converting_lines(lines: Seq<Seq<FieldModel>>)
    requires
        all_convert(lines),
    ensures
        match scanned(lines) {
            Ok(table) => forall|kmer: Seq<u8>|
                has_row_of(lines, kmer) ==> #[trigger] table.contains_key(kmer),
            Err(e) => e == SquigglerError::NotValidModel,
        },
    decreases lines.len(),
{
    if lines.len() > 0 {
        let before = lines.drop_last();
        assert(forall|i: int| 0 <= i < before.len() ==> before[i] == lines[i]);
        assert(all_convert(before));
        lemma_scan_of_converting_lines(before);
        assert(lines[lines.len() - 1] == lines.last());
        if let Ok(table) = scanned(lines) {
            assert forall|kmer: Seq<u8>| has_row_of(lines, kmer) implies #[trigger]
                table.contains_key(kmer) by {
                let i = choose|i: int| 0 <= i < lines.len() && is_row_of(lines[i], kmer);
                if i < before.len() {
                    assert(is_row_of(before[i], kmer));
                }
            }
        }
    }
}

/// A model that lacks a k-mer is refused for that: where every data line
/// gives a row, no k-mer comes twice, and some k-mer over the four
/// nucleotides has no row, the load fails with `NotEnoughData`.
pub proof fn lemma_missing_kmer_is_refused(lines: Seq<Seq<FieldModel>>, kmer: Seq<u8>)
    requires
        all_convert(lines),
        no_kmer_twice(lines),
        is_nucleotide_kmer(kmer),
        !has_row_of(lines, kmer),
    ensures
        fails_with(lines, SquigglerError::NotEnoughData),
{
    lemma_scan_of_good_lines(lines);
    assert(!scanned(lines)->Ok_0.contains_key(kmer));
}

/// A model with too few k-mers is refused for that: where every data line
/// gives a row, no k-mer comes twice, and the data lines give rows for fewer
/// than `KMER_COUNT` k-mers over the four nucleotides, the load fails with
/// `NotEnoughData`.
pub proof fn lemma_short_model_is_refused(lines: Seq<Seq<FieldModel>>)
    requires
        all_convert(lines),
        no_kmer_twice(lines),
        kmers_given(lines).len() < KMER_COUNT,
    ensures
        fails_with(lines, SquigglerError::NotEnoughData),
{
    lemma_scan_of_good_lines(lines);
    lemma_nucleotide_kmers_count();
    let table = scanned(lines)->Ok_0;
    if is_complete(table) {
        assert forall|kmer: Seq<u8>| nucleotide_kmers().contains(kmer) implies kmers_given(
            lines,
        ).contains(kmer) by {
            assert(table.contains_key(kmer));
        }
        assert(kmers_given(lines) =~= nucleotide_kmers());
    }
}

} // verus!
