//! Sequence records: lines of nucleotides under header and comment lines,
//! and the windows of a sequence.

use crate::kmer::KMER_SIZE;
use crate::text::{pieces, split, views, NEWLINE};
use vstd::prelude::*;
use vstd::string::StringSliceAdditionalSpecFns;

verus! {

/// The sign `>` that opens a header line.
pub const HEADER_SIGN: u8 = 0x3E;

/// The sign `;` that opens a comment line.
pub const COMMENT_SIGN: u8 = 0x3B;

/// A header or comment line: it holds no nucleotides.
pub open spec fn is_remark(line: Seq<u8>) -> bool {
    line.len() > 0 && (line[0] == HEADER_SIGN || line[0] == COMMENT_SIGN)
}

/// The lines that hold nucleotides, in order.
pub open spec fn sequence_lines(lines: Seq<Seq<u8>>) -> Seq<Seq<u8>> {
    lines.filter(|line: Seq<u8>| !is_remark(line))
}

/// The nucleotide sequence of a record: its lines, cut at the line feeds,
/// without the header and comment lines, put together with nothing between.
pub open spec fn sequence_of(fasta: Seq<u8>) -> Seq<u8> {
    sequence_lines(pieces(fasta, NEWLINE)).flatten()
}

/// How many windows of `KMER_SIZE` bytes a sequence has: one for each place
/// where one fits, none where the sequence is shorter than a window.
pub open spec fn window_count(seq: Seq<u8>) -> nat {
    if seq.len() < KMER_SIZE {
        0
    } else {
        (seq.len() - KMER_SIZE + 1) as nat
    }
}

/// The window that starts at place `i`.
pub open spec fn window(seq: Seq<u8>, i: int) -> Seq<u8> {
    seq.subrange(i, i + KMER_SIZE)
}

/// One more line adds its bytes to the sequence, unless it is a remark.
pub proof fn lemma_sequence_grows(lines: Seq<Seq<u8>>, line: Seq<u8>)
    ensures
        sequence_lines(lines.push(line)).flatten() == if is_remark(line) {
            sequence_lines(lines).flatten()
        } else {
            sequence_lines(lines).flatten() + line
        },
{
    let keep = |line: Seq<u8>| !is_remark(line);
    lines.lemma_filter_push(line, keep);
    if !is_remark(line) {
        sequence_lines(lines).lemma_flatten_push(line);
    }
}

/// Tells whether a line is a header or a comment.
fn is_remark_line(line: &[u8]) -> (r: bool)
    ensures
        r == is_remark(line@),
{
    line.len() > 0 && (line[0] == HEADER_SIGN || line[0] == COMMENT_SIGN)
}

/// Adds the bytes of `line` at the end of `seq`.
fn append(seq: &mut Vec<u8>, line: &[u8])
    ensures
        final(seq)@ == old(seq)@ + line@,
{
    let mut i: usize = 0;
    while i < line.len()
        invariant
            i <= line.len(),
            seq@ == old(seq)@ + line@.subrange(0, i as int),
        decreases line.len() - i,
    {
        seq.push(line[i]);
        i += 1;
    }
}

/// The nucleotide sequence of a record.
pub fn sequence(fasta: &str) -> (seq: Vec<u8>)
    ensures
        seq@ == sequence_of(fasta.spec_bytes()),
{
    let parts = split(fasta, NEWLINE);
    let mut seq: Vec<u8> = Vec::new();
    let mut i: usize = 0;
    assert(sequence_lines(Seq::empty()) =~= Seq::empty()) by {
        reveal(Seq::filter);
    }
    while i < parts.len()
        invariant
            i <= parts.len(),
            seq@ == sequence_lines(views(parts@).take(i as int)).flatten(),
        decreases parts.len() - i,
    {
        let line = parts[i].as_bytes();
        proof {
            assert(views(parts@).take(i + 1) == views(parts@).take(i as int).push(line@));
            lemma_sequence_grows(views(parts@).take(i as int), line@);
        }
        if !is_remark_line(line) {
            append(&mut seq, line);
        }
        i += 1;
    }
    assert(views(parts@).take(parts.len() as int) == views(parts@));
    seq
}

} // verus!
