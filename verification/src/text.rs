//! Cutting text at separators and into lines.

use vstd::prelude::*;
use vstd::string::StringSliceAdditionalSpecFns;
use vstd::string::StrSliceExecFns;
use vstd::utf8::{
    decode_utf8, encode_utf8_decode_utf8, encode_utf8_first_scalar, encode_utf8_valid_utf8,
    is_char_boundary, is_char_boundary_iff_not_is_continuation_byte, valid_utf8,
};

verus! {

/// The line feed.
pub const NEWLINE: u8 = 0x0A;

/// The carriage return.
pub const CARRIAGE_RETURN: u8 = 0x0D;

/// The horizontal tab.
pub const TAB: u8 = 0x09;

/// The pieces of `s` between the occurrences of `sep`, in order: one more
/// piece than `s` holds separators, so the empty text has one empty piece.
pub open spec fn pieces(s: Seq<u8>, sep: u8) -> Seq<Seq<u8>>
    decreases s.len(),
{
    if s.len() == 0 {
        seq![Seq::empty()]
    } else {
        let before = pieces(s.drop_last(), sep);
        if s.last() == sep {
            before.push(Seq::empty())
        } else {
            before.drop_last().push(before.last().push(s.last()))
        }
    }
}

/// The pieces put together again, with `sep` between neighbours.
pub open spec fn joined(parts: Seq<Seq<u8>>, sep: u8) -> Seq<u8>
    decreases parts.len(),
{
    if parts.len() == 0 {
        Seq::empty()
    } else if parts.len() == 1 {
        parts[0]
    } else {
        joined(parts.drop_last(), sep).push(sep) + parts.last()
    }
}

/// The bytes of each text of a list.
pub open spec fn views(parts: Seq<&str>) -> Seq<Seq<u8>> {
    parts.map_values(|p: &str| p.spec_bytes())
}

/// Splitting loses nothing and leaves no separator inside a piece: the
/// pieces, joined by the separator, are the text, and there is at least one.
pub proof fn lemma_pieces_partition(s: Seq<u8>, sep: u8)
    ensures
        pieces(s, sep).len() >= 1,
        joined(pieces(s, sep), sep) == s,
        forall|i: int, j: int|
            0 <= i < pieces(s, sep).len() && 0 <= j < pieces(s, sep)[i].len() ==> pieces(
                s,
                sep,
            )[i][j] != sep,
    decreases s.len(),
{
    if s.len() > 0 {
        let before = pieces(s.drop_last(), sep);
        lemma_pieces_partition(s.drop_last(), sep);
        if s.last() == sep {
            assert(before.push(Seq::empty()).drop_last() == before);
        } else if before.len() > 1 {
            let grown = before.drop_last().push(before.last().push(s.last()));
            assert(grown.drop_last() == before.drop_last());
            assert(s.drop_last().push(s.last()) == s);
        }
    }
}

/// A text without a separator is one piece.
pub proof fn lemma_pieces_of_unbroken(s: Seq<u8>, sep: u8)
    requires
        !s.contains(sep),
    ensures
        pieces(s, sep) == seq![s],
    decreases s.len(),
{
    if s.len() == 0 {
        assert(s =~= Seq::<u8>::empty());
    } else {
        assert(!s.drop_last().contains(sep));
        lemma_pieces_of_unbroken(s.drop_last(), sep);
        assert(s.drop_last().push(s.last()) == s);
    }
}

/// A separator parts the pieces before it from the pieces behind it.
pub proof fn lemma_pieces_across(a: Seq<u8>, b: Seq<u8>, sep: u8)
    ensures
        pieces(a.push(sep) + b, sep) == pieces(a, sep) + pieces(b, sep),
    decreases b.len(),
{
    let whole = a.push(sep) + b;
    if b.len() == 0 {
        assert(whole.drop_last() =~= a);
    } else {
        lemma_pieces_across(a, b.drop_last(), sep);
        lemma_pieces_partition(b.drop_last(), sep);
        assert(whole.drop_last() =~= a.push(sep) + b.drop_last());
    }
}

/// The first piece is what stands before the first separator: it begins the
/// text, holds no separator, and ends where the text ends or a separator
/// stands. It is the only piece exactly if it is the whole text.
pub proof fn lemma_first_piece(s: Seq<u8>, sep: u8)
    ensures
        pieces(s, sep).len() >= 1,
        pieces(s, sep)[0].is_prefix_of(s),
        !pieces(s, sep)[0].contains(sep),
        pieces(s, sep)[0].len() < s.len() ==> s[pieces(s, sep)[0].len() as int] == sep,
        pieces(s, sep).len() == 1 <==> pieces(s, sep)[0].len() == s.len(),
    decreases s.len(),
{
    if s.len() > 0 {
        let before = pieces(s.drop_last(), sep);
        lemma_first_piece(s.drop_last(), sep);
        let first = pieces(s, sep)[0];
        if s.last() != sep && before.len() == 1 {
            assert(forall|i: int| 0 <= i < first.len() ==> first[i] != sep);
        }
    }
}

/// A text can be cut before a byte of one-byte characters.
proof fn lemma_cut_before(text: &str, at: int)
    requires
        0 <= at < text.spec_bytes().len(),
        text.spec_bytes()[at] < 0x80,
    ensures
        is_char_boundary(text.spec_bytes(), at),
{
    encode_utf8_valid_utf8(text@);
    is_char_boundary_iff_not_is_continuation_byte(text.spec_bytes(), at);
}

/// A text that begins with a one-byte character can be cut behind it.
proof fn lemma_cut_behind_first(text: &str)
    requires
        text.spec_bytes().len() > 0,
        text.spec_bytes()[0] < 0x80,
    ensures
        is_char_boundary(text.spec_bytes(), 1),
{
    encode_utf8_valid_utf8(text@);
    reveal_with_fuel(is_char_boundary, 2);
    reveal_with_fuel(valid_utf8, 2);
}

/// Cuts `text` at every `sep`, a byte that is a character of its own.
pub fn split<'a>(text: &'a str, sep: u8) -> (parts: Vec<&'a str>)
    requires
        sep < 0x80,
    ensures
        views(parts@) == pieces(text.spec_bytes(), sep),
{
    let ghost bytes = text.spec_bytes();
    let mut parts: Vec<&'a str> = Vec::new();
    let mut rest: &'a str = text;
    let mut left: usize = rest.as_bytes().len();
    let ghost mut start: int = 0;
    let mut i: usize = 0;
    assert(bytes.subrange(0, 0) =~= Seq::<u8>::empty());
    while i < left
        invariant
            sep < 0x80,
            bytes == text.spec_bytes(),
            left == rest.spec_bytes().len(),
            0 <= start,
            start + i <= bytes.len(),
            rest.spec_bytes() == bytes.subrange(start, bytes.len() as int),
            views(parts@).push(bytes.subrange(start, start + i)) == pieces(
                bytes.subrange(0, start + i),
                sep,
            ),
        decreases bytes.len() - start - i,
    {
        let ghost done = bytes.subrange(0, start + i);
        let ghost next = bytes.subrange(0, start + i + 1);
        assert(next.drop_last() == done);
        if rest.as_bytes()[i] == sep {
            proof {
                lemma_cut_before(rest, i as int);
            }
            let (piece, tail) = rest.split_at(i);
            proof {
                lemma_cut_behind_first(tail);
            }
            let (_, after) = tail.split_at(1);
            parts.push(piece);
            proof {
                assert(piece.spec_bytes() =~= bytes.subrange(start, start + i));
                start = start + i + 1;
                assert(bytes.subrange(start, start) =~= Seq::<u8>::empty());
            }
            rest = after;
            left = rest.as_bytes().len();
            i = 0;
        } else {
            assert(bytes.subrange(start, start + i).push(bytes[start + i]) == bytes.subrange(
                start,
                start + i + 1,
            ));
            i += 1;
        }
    }
    parts.push(rest);
    assert(bytes.subrange(0, bytes.len() as int) =~= bytes);
    parts
}

/// A line without the carriage return at its end, if it has one.
pub open spec fn without_return(line: Seq<u8>) -> Seq<u8> {
    if line.len() > 0 && line.last() == CARRIAGE_RETURN {
        line.drop_last()
    } else {
        line
    }
}

/// The lines of a text. A line ends at a line feed, which is dropped together
/// with a carriage return just before it. What follows the last line feed is
/// a line of its own, kept as it is, unless it is empty.
pub open spec fn lines_of(text: Seq<u8>) -> Seq<Seq<u8>> {
    let parts = pieces(text, NEWLINE);
    let ended = parts.drop_last().map_values(|l: Seq<u8>| without_return(l));
    if parts.last().len() == 0 {
        ended
    } else {
        ended.push(parts.last())
    }
}

/// The first character of a text, if it has one.
pub open spec fn first_char_of(text: Seq<u8>) -> Option<char> {
    if text.len() > 0 && valid_utf8(text) {
        Some(decode_utf8(text)[0])
    } else {
        None
    }
}

/// Where a text begins with a one-byte character, that byte is its first
/// character.
pub proof fn lemma_first_char_of_one_byte(text: Seq<u8>)
    requires
        valid_utf8(text),
        text.len() > 0,
        text[0] < 0x80,
    ensures
        first_char_of(text) == Some(text[0] as char),
{
    let b = text[0];
    assert((b & 0x7F) as u32 == b as u32) by (bit_vector)
        requires
            b < 0x80,
    ;
}

/// `s` begins with `prefix`.
pub open spec fn begins_with(s: Seq<u8>, prefix: Seq<u8>) -> bool {
    prefix.len() <= s.len() && s.subrange(0, prefix.len() as int) == prefix
}

/// Cuts a text into its lines.
pub fn lines<'a>(text: &'a str) -> (out: Vec<&'a str>)
    ensures
        views(out@) == lines_of(text.spec_bytes()),
{
    let parts = split(text, NEWLINE);
    proof {
        lemma_pieces_partition(text.spec_bytes(), NEWLINE);
    }
    let mut out: Vec<&'a str> = Vec::new();
    let n: usize = parts.len();
    let mut i: usize = 0;
    while i + 1 < n
        invariant
            n == parts.len(),
            n >= 1,
            i + 1 <= n,
            out.len() == i,
            forall|j: int|
                0 <= j < i ==> (#[trigger] out[j]).spec_bytes() == without_return(
                    parts[j].spec_bytes(),
                ),
        decreases n - i,
    {
        let line: &'a str = parts[i];
        let bytes = line.as_bytes();
        let end: usize = bytes.len();
        if end > 0 && bytes[end - 1] == CARRIAGE_RETURN {
            proof {
                lemma_cut_before(line, end - 1);
            }
            let (kept, _) = line.split_at(end - 1);
            out.push(kept);
        } else {
            out.push(line);
        }
        i += 1;
    }
    let last: &'a str = parts[n - 1];
    if last.as_bytes().len() > 0 {
        out.push(last);
    }
    out
}

/// The first character of a text, if it has one.
pub fn first_char(text: &str) -> (first: Option<char>)
    ensures
        first == first_char_of(text.spec_bytes()),
{
    proof {
        encode_utf8_valid_utf8(text@);
        encode_utf8_decode_utf8(text@);
        if text@.len() > 0 {
            encode_utf8_first_scalar(text@);
        }
    }
    if text.is_empty() {
        None
    } else {
        Some(text.get_char(0))
    }
}

/// Tells whether `s` begins with `prefix`.
pub fn starts_with(s: &[u8], prefix: &[u8]) -> (r: bool)
    ensures
        r == begins_with(s@, prefix@),
{
    if prefix.len() > s.len() {
        return false;
    }
    let mut i: usize = 0;
    while i < prefix.len()
        invariant
            i <= prefix.len() <= s.len(),
            forall|j: int| 0 <= j < i ==> s[j] == prefix[j],
        decreases prefix.len() - i,
    {
        if s[i] != prefix[i] {
            return false;
        }
        i += 1;
    }
    assert(s@.subrange(0, prefix.len() as int) =~= prefix@);
    true
}

} // verus!
