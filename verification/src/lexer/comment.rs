//! Comments: a line comment runs from `//` to the end of its line, a block
//! comment from `/*` to the first ` */` after it. Both are found on the UTF-8
//! encoding of the text, in which every byte of these delimiters is ASCII.
use vstd::prelude::*;
use vstd::utf8::*;

use super::source_text::boundary;

verus! {

pub open spec fn is_line_break_byte(byte: u8) -> bool {
    byte == 0x0a || byte == 0x0d
}

/// The bytes from `i` on begin with ` */`, which ends a block comment.
pub open spec fn terminator_at(bytes: Seq<u8>, i: int) -> bool {
    &&& 0 <= i
    &&& i + 3 <= bytes.len()
    &&& bytes[i] == 0x20
    &&& bytes[i + 1] == 0x2a
    &&& bytes[i + 2] == 0x2f
}

/// The bytes begin with `first` and then `second`.
pub open spec fn starts_with_pair(bytes: Seq<u8>, first: u8, second: u8) -> bool {
    bytes.len() >= 2 && bytes[0] == first && bytes[1] == second
}

/// The first offset from `i` on that holds a line break, or the end.
pub open spec fn line_comment_end(bytes: Seq<u8>, i: int) -> int
    decreases bytes.len() - i,
{
    if i >= bytes.len() || i < 0 {
        bytes.len() as int
    } else if is_line_break_byte(bytes[i]) {
        i
    } else {
        line_comment_end(bytes, i + 1)
    }
}

/// The end of the first terminator that starts at `i` or later.
pub open spec fn block_comment_end(bytes: Seq<u8>, i: int) -> Option<int>
    decreases bytes.len() - i,
{
    if i + 3 > bytes.len() || i < 0 {
        None
    } else if terminator_at(bytes, i) {
        Some(i + 3)
    } else {
        block_comment_end(bytes, i + 1)
    }
}

/// The byte span of a comment at the start of `text`: a line comment, or else a
/// block comment.
pub open spec fn comment_span(text: Seq<char>) -> Option<(usize, usize)> {
    let bytes = encode_utf8(text);
    if starts_with_pair(bytes, 0x2f, 0x2f) {
        Some((0usize, line_comment_end(bytes, 2) as usize))
    } else if starts_with_pair(bytes, 0x2f, 0x2a) {
        match block_comment_end(bytes, 2) {
            Some(end) => Some((0usize, end as usize)),
            None => None,
        }
    } else {
        None
    }
}

/// An ASCII byte is a whole character: the offsets before and after it fall
/// between characters.
pub proof fn lemma_ascii_byte_boundaries(text: Seq<char>, i: int)
    requires
        0 <= i < encode_utf8(text).len(),
        encode_utf8(text)[i] < 0x80,
    ensures
        boundary(text, i),
        boundary(text, i + 1),
{
    let bytes = encode_utf8(text);
    encode_utf8_valid_utf8(text);
    is_char_boundary_iff_not_is_continuation_byte(bytes, i);
    if i + 1 == bytes.len() {
        is_char_boundary_start_end_of_seq(bytes);
    } else {
        valid_utf8_split(bytes, i);
        let suffix = bytes.subrange(i, bytes.len() as int);
        assert(suffix[0] == bytes[i]);
        assert(length_of_first_scalar(suffix) == 1);
        assert(valid_utf8(pop_first_scalar(suffix)));
        reveal_with_fuel(is_char_boundary, 2);
        assert(is_char_boundary(suffix, 1));
        is_char_boundary_iff_not_is_continuation_byte(suffix, 1);
        assert(suffix[1] == bytes[i + 1]);
        is_char_boundary_iff_not_is_continuation_byte(bytes, i + 1);
    }
}

proof fn lemma_line_comment_end(bytes: Seq<u8>, i: int)
    requires
        0 <= i <= bytes.len(),
    ensures
        i <= line_comment_end(bytes, i) <= bytes.len(),
        forall|j: int| i <= j < line_comment_end(bytes, i) ==> !is_line_break_byte(#[trigger] bytes[j]),
        line_comment_end(bytes, i) == bytes.len() || is_line_break_byte(bytes[line_comment_end(bytes, i)]),
    decreases bytes.len() - i,
{
    if i < bytes.len() && !is_line_break_byte(bytes[i]) {
        lemma_line_comment_end(bytes, i + 1);
    }
}

proof fn lemma_block_comment_end(bytes: Seq<u8>, i: int)
    requires
        0 <= i,
    ensures
        match block_comment_end(bytes, i) {
            Some(end) => {
                &&& i + 3 <= end <= bytes.len()
                &&& terminator_at(bytes, end - 3)
                &&& forall|j: int| i <= j < end - 3 ==> !#[trigger] terminator_at(bytes, j)
            },
            None => forall|j: int| i <= j ==> !#[trigger] terminator_at(bytes, j),
        },
    decreases bytes.len() - i,
{
    if i + 3 <= bytes.len() && !terminator_at(bytes, i) {
        lemma_block_comment_end(bytes, i + 1);
    }
}

/// The three bytes of ` */`, which ends a block comment.
pub open spec fn block_terminator() -> Seq<u8> {
    seq![0x20u8, 0x2au8, 0x2fu8]
}

/// A comment starts at the start of the text and ends between two characters. A
/// line comment begins with `//` and ends right before the first line feed or
/// carriage return after it, or at the end of the text. A block comment begins
/// with `/*` and ends with the first ` */` after that, so that no ` */` lies
/// within it before its end and whatever follows that first ` */` is not part
/// of it. With neither beginning, or a `/*` that no ` */` follows, there is no
/// comment.
pub proof fn lemma_comment_ends_at_first_terminator(text: Seq<char>)
    requires
        encode_utf8(text).len() <= usize::MAX,
    ensures
        ({
            let bytes = encode_utf8(text);
            let line = bytes.len() >= 2 && bytes[0] == 0x2f && bytes[1] == 0x2f;
            let block = bytes.len() >= 2 && bytes[0] == 0x2f && bytes[1] == 0x2a;
            match comment_span(text) {
                Some((start, end)) => {
                    &&& start == 0
                    &&& boundary(text, end as int)
                    &&& (line && 2 <= end <= bytes.len() && (forall|j: int|
                        2 <= j < end ==> #[trigger] bytes[j] != 0x0a && bytes[j] != 0x0d) && (end == bytes.len()
                        || bytes[end as int] == 0x0a || bytes[end as int] == 0x0d)) || (block && 5 <= end
                        <= bytes.len() && bytes.subrange(end - 3, end as int) == block_terminator() && forall|j: int|
                        2 <= j < end - 3 ==> #[trigger] bytes.subrange(j, j + 3) != block_terminator())
                },
                None => {
                    &&& !line
                    &&& block ==> forall|j: int| 2 <= j <= bytes.len() - 3 ==> #[trigger] bytes.subrange(j, j + 3) != block_terminator()
                },
            }
        }),
{
    let bytes = encode_utf8(text);
    if starts_with_pair(bytes, 0x2f, 0x2f) {
        lemma_line_comment_end(bytes, 2);
        let end = line_comment_end(bytes, 2);
        if end == bytes.len() {
            encode_utf8_valid_utf8(text);
            is_char_boundary_start_end_of_seq(bytes);
        } else {
            lemma_ascii_byte_boundaries(text, end);
        }
    } else if starts_with_pair(bytes, 0x2f, 0x2a) {
        lemma_block_comment_end(bytes, 2);
        if let Some(end) = block_comment_end(bytes, 2) {
            lemma_ascii_byte_boundaries(text, end - 1);
            lemma_terminator_bytes(bytes, end - 3);
            assert forall|j: int| 2 <= j < end - 3 implies #[trigger] bytes.subrange(j, j + 3) != block_terminator() by {
                lemma_terminator_bytes(bytes, j);
            }
        } else {
            assert forall|j: int| 2 <= j <= bytes.len() - 3 implies #[trigger] bytes.subrange(j, j + 3)
                != block_terminator() by {
                lemma_terminator_bytes(bytes, j);
            }
        }
    }
}

proof fn lemma_terminator_bytes(bytes: Seq<u8>, j: int)
    requires
        0 <= j,
        j + 3 <= bytes.len(),
    ensures
        (bytes.subrange(j, j + 3) == block_terminator()) == terminator_at(bytes, j),
{
    if terminator_at(bytes, j) {
        assert(bytes.subrange(j, j + 3) =~= block_terminator());
    }
    if bytes.subrange(j, j + 3) == block_terminator() {
        assert(bytes.subrange(j, j + 3)[0] == bytes[j]);
        assert(bytes.subrange(j, j + 3)[1] == bytes[j + 1]);
        assert(bytes.subrange(j, j + 3)[2] == bytes[j + 2]);
    }
}

} // verus!
