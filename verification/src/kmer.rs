//! K-mers: their codes, and the k-mers over the four nucleotides in
//! alphabetical order.

use vstd::prelude::*;
use vstd::set_lib::{lemma_int_range, lemma_map_size, set_int_range};

verus! {

/// The length of every k-mer of the model.
pub const KMER_SIZE: usize = 6;

/// How many k-mers there are over the four nucleotides.
pub const KMER_COUNT: usize = 4096;

/// The least number that is the code of no text of `KMER_SIZE` bytes.
pub const CODE_LIMIT: u64 = 0x1_0000_0000_0000;

/// The letter `A`.
pub const ADENINE: u8 = 0x41;

/// The letter `C`.
pub const CYTOSINE: u8 = 0x43;

/// The letter `G`.
pub const GUANINE: u8 = 0x47;

/// The letter `T`.
pub const THYMINE: u8 = 0x54;

/// The number whose digits in base 256 are the bytes of `text`, first byte
/// highest.
pub open spec fn packed(text: Seq<u8>) -> nat
    decreases text.len(),
{
    if text.len() == 0 {
        0
    } else {
        packed(text.drop_last()) * 256 + text.last() as nat
    }
}

/// The text of `len` bytes whose code is `code`, for a code that has one.
pub open spec fn unpacked(code: nat, len: nat) -> Seq<u8>
    decreases len,
{
    if len == 0 {
        Seq::empty()
    } else {
        unpacked(code / 256, (len - 1) as nat).push((code % 256) as u8)
    }
}

/// How many texts of `len` bytes there are.
pub open spec fn code_limit(len: nat) -> nat
    decreases len,
{
    if len == 0 {
        1
    } else {
        256 * code_limit((len - 1) as nat)
    }
}

/// One of the four letters `A`, `C`, `G`, `T`.
pub open spec fn is_nucleotide(b: u8) -> bool {
    b == ADENINE || b == CYTOSINE || b == GUANINE || b == THYMINE
}

/// A text of `KMER_SIZE` nucleotides.
pub open spec fn is_nucleotide_kmer(text: Seq<u8>) -> bool {
    text.len() == KMER_SIZE && forall|i: int| 0 <= i < text.len() ==> is_nucleotide(#[trigger] text[i])
}

/// The nucleotide with the given place in the alphabet A, C, G, T.
pub open spec fn nucleotide(place: int) -> u8 {
    if place == 0 {
        ADENINE
    } else if place == 1 {
        CYTOSINE
    } else if place == 2 {
        GUANINE
    } else {
        THYMINE
    }
}

/// The place of a nucleotide in the alphabet A, C, G, T.
pub open spec fn place_of(b: u8) -> nat {
    if b == ADENINE {
        0
    } else if b == CYTOSINE {
        1
    } else if b == GUANINE {
        2
    } else {
        3
    }
}

/// How many texts of `len` nucleotides there are.
pub open spec fn kmer_count(len: nat) -> nat
    decreases len,
{
    if len == 0 {
        1
    } else {
        4 * kmer_count((len - 1) as nat)
    }
}

/// The text of `len` nucleotides with the given number in alphabetical
/// order, counted from 0.
pub open spec fn nth_kmer(index: nat, len: nat) -> Seq<u8>
    decreases len,
{
    if len == 0 {
        Seq::empty()
    } else {
        nth_kmer(index / 4, (len - 1) as nat).push(nucleotide((index % 4) as int))
    }
}

/// The number of a text of nucleotides in alphabetical order.
pub open spec fn index_of(text: Seq<u8>) -> nat
    decreases text.len(),
{
    if text.len() == 0 {
        0
    } else {
        index_of(text.drop_last()) * 4 + place_of(text.last())
    }
}

/// What the limits come to for k-mers of `KMER_SIZE` bytes.
pub proof fn lemma_limits()
    ensures
        code_limit(KMER_SIZE as nat) == CODE_LIMIT,
        kmer_count(KMER_SIZE as nat) == KMER_COUNT,
{
    reveal_with_fuel(code_limit, 7);
    reveal_with_fuel(kmer_count, 7);
}

/// A code is below the number of texts of its length.
pub proof fn lemma_packed_below_limit(text: Seq<u8>)
    ensures
        packed(text) < code_limit(text.len()),
    decreases text.len(),
{
    if text.len() > 0 {
        lemma_packed_below_limit(text.drop_last());
    }
}

/// Unpacking a code gives back the text that was packed.
pub proof fn lemma_unpacked_packed(text: Seq<u8>)
    ensures
        unpacked(packed(text), text.len()) == text,
    decreases text.len(),
{
    if text.len() > 0 {
        lemma_unpacked_packed(text.drop_last());
    }
}

/// Packing what a code unpacks to gives back the code.
pub proof fn lemma_packed_unpacked(code: nat, len: nat)
    requires
        code < code_limit(len),
    ensures
        unpacked(code, len).len() == len,
        packed(unpacked(code, len)) == code,
    decreases len,
{
    if len > 0 {
        lemma_packed_unpacked(code / 256, (len - 1) as nat);
        let text = unpacked(code, len);
        assert(text.drop_last() == unpacked(code / 256, (len - 1) as nat));
    }
}

/// Two texts of one length with one code are the same text.
pub proof fn lemma_packed_injective(a: Seq<u8>, b: Seq<u8>)
    requires
        a.len() == b.len(),
        packed(a) == packed(b),
    ensures
        a == b,
{
    lemma_unpacked_packed(a);
    lemma_unpacked_packed(b);
}

/// Every number below the count names a text of nucleotides, and that text
/// has this number.
pub proof fn lemma_nth_kmer(index: nat, len: nat)
    requires
        index < kmer_count(len),
    ensures
        nth_kmer(index, len).len() == len,
        forall|i: int| 0 <= i < len ==> is_nucleotide(#[trigger] nth_kmer(index, len)[i]),
        index_of(nth_kmer(index, len)) == index,
    decreases len,
{
    if len > 0 {
        lemma_nth_kmer(index / 4, (len - 1) as nat);
        let text = nth_kmer(index, len);
        assert(text.drop_last() == nth_kmer(index / 4, (len - 1) as nat));
    }
}

/// Every text of nucleotides has a number below the count, and is the text
/// with that number.
pub proof fn lemma_index_of(text: Seq<u8>)
    requires
        forall|i: int| 0 <= i < text.len() ==> is_nucleotide(#[trigger] text[i]),
    ensures
        index_of(text) < kmer_count(text.len()),
        nth_kmer(index_of(text), text.len()) == text,
    decreases text.len(),
{
    if text.len() > 0 {
        lemma_index_of(text.drop_last());
    }
}

/// All k-mers over the four nucleotides.
pub open spec fn nucleotide_kmers() -> Set<Seq<u8>> {
    Set::new(|text: Seq<u8>| is_nucleotide_kmer(text))
}

/// There are `KMER_COUNT` k-mers over the four nucleotides.
pub proof fn lemma_nucleotide_kmers_count()
    ensures
        nucleotide_kmers().finite(),
        nucleotide_kmers().len() == KMER_COUNT,
{
    let numbers = set_int_range(0, KMER_COUNT as int);
    let naming = |i: int| nth_kmer(i as nat, KMER_SIZE as nat);
    lemma_int_range(0, KMER_COUNT as int);
    lemma_limits();
    assert forall|i: int, j: int|
        numbers.contains(i) && numbers.contains(j) && naming(i) == naming(j) implies i == j by {
        lemma_nth_kmer(i as nat, KMER_SIZE as nat);
        lemma_nth_kmer(j as nat, KMER_SIZE as nat);
    }
    assert forall|text: Seq<u8>| numbers.map(naming).contains(text) implies nucleotide_kmers().contains(
        text,
    ) by {
        let i = choose|i: int| numbers.contains(i) && text == naming(i);
        lemma_nth_kmer(i as nat, KMER_SIZE as nat);
    }
    assert forall|text: Seq<u8>| nucleotide_kmers().contains(text) implies numbers.map(
        naming,
    ).contains(text) by {
        lemma_index_of(text);
        assert(numbers.contains(index_of(text) as int) && text == naming(index_of(text) as int));
    }
    assert(numbers.map(naming) =~= nucleotide_kmers());
    lemma_map_size(numbers, nucleotide_kmers(), naming);
}

/// The code of a text of at most `KMER_SIZE` bytes.
pub fn pack(text: &[u8]) -> (code: u64)
    requires
        text.len() <= KMER_SIZE,
    ensures
        code == packed(text@),
{
    let mut code: u64 = 0;
    let mut i: usize = 0;
    while i < text.len()
        invariant
            i <= text.len() <= KMER_SIZE,
            code == packed(text@.subrange(0, i as int)),
        decreases text.len() - i,
    {
        proof {
            let done = text@.subrange(0, i as int);
            lemma_packed_below_limit(done);
            reveal_with_fuel(code_limit, 7);
            assert(text@.subrange(0, i + 1).drop_last() == done);
        }
        code = code * 256 + text[i] as u64;
        i += 1;
    }
    assert(text@.subrange(0, text.len() as int) == text@);
    code
}

/// The text of `KMER_SIZE` bytes with the given code.
pub fn unpack(code: u64) -> (text: Vec<u8>)
    ensures
        text@ == unpacked(code as nat, KMER_SIZE as nat),
{
    let mut text: Vec<u8> = Vec::new();
    let b0: u8 = ((code / 0x100_0000_0000) % 256) as u8;
    let b1: u8 = ((code / 0x1_0000_0000) % 256) as u8;
    let b2: u8 = ((code / 0x100_0000) % 256) as u8;
    let b3: u8 = ((code / 0x1_0000) % 256) as u8;
    let b4: u8 = ((code / 0x100) % 256) as u8;
    let b5: u8 = (code % 256) as u8;
    text.push(b0);
    text.push(b1);
    text.push(b2);
    text.push(b3);
    text.push(b4);
    text.push(b5);
    proof {
        reveal_with_fuel(unpacked, 7);
    }
    text
}

/// The nucleotide with the given place in the alphabet.
fn nucleotide_at(place: usize) -> (b: u8)
    requires
        place < 4,
    ensures
        b == nucleotide(place as int),
{
    if place == 0 {
        ADENINE
    } else if place == 1 {
        CYTOSINE
    } else if place == 2 {
        GUANINE
    } else {
        THYMINE
    }
}

/// The k-mer of nucleotides with the given number in alphabetical order.
pub fn kmer_with_index(index: usize) -> (text: Vec<u8>)
    requires
        index < KMER_COUNT,
    ensures
        text@ == nth_kmer(index as nat, KMER_SIZE as nat),
        is_nucleotide_kmer(text@),
{
    let mut text: Vec<u8> = Vec::new();
    text.push(nucleotide_at((index / 1024) % 4));
    text.push(nucleotide_at((index / 256) % 4));
    text.push(nucleotide_at((index / 64) % 4));
    text.push(nucleotide_at((index / 16) % 4));
    text.push(nucleotide_at((index / 4) % 4));
    text.push(nucleotide_at(index % 4));
    proof {
        reveal_with_fuel(nth_kmer, 7);
        lemma_limits();
        lemma_nth_kmer(index as nat, KMER_SIZE as nat);
    }
    text
}

} // verus!
