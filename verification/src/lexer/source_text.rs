//! Reading source text: white space, splitting a `&str` at byte offsets that
//! fall between characters, the first word of a text, and decimal constants.
use vstd::prelude::*;
use vstd::string::*;
use vstd::utf8::*;

verus! {

/// The characters with the Unicode `White_Space` property, which is what
/// `char::is_whitespace` tests.
pub open spec fn is_white_space(c: char) -> bool {
    let u = c as u32;
    ||| 0x9 <= u <= 0xD
    ||| u == 0x20
    ||| u == 0x85
    ||| u == 0xA0
    ||| u == 0x1680
    ||| 0x2000 <= u <= 0x200A
    ||| u == 0x2028
    ||| u == 0x2029
    ||| u == 0x202F
    ||| u == 0x205F
    ||| u == 0x3000
}

pub fn is_whitespace(c: char) -> (result: bool)
    ensures
        result == is_white_space(c),
{
    let u = c as u32;
    (0x9 <= u && u <= 0xD) || u == 0x20 || u == 0x85 || u == 0xA0 || u == 0x1680 || (0x2000 <= u && u <= 0x200A)
        || u == 0x2028 || u == 0x2029 || u == 0x202F || u == 0x205F || u == 0x3000
}

/// `b` is a byte offset into the UTF-8 encoding of `text` that falls between two
/// characters (or at either end).
pub open spec fn boundary(text: Seq<char>, b: int) -> bool {
    0 <= b <= encode_utf8(text).len() && is_char_boundary(encode_utf8(text), b)
}

/// The number of characters whose encoding lies before byte offset `b`.
pub open spec fn chars_before(text: Seq<char>, b: int) -> int {
    decode_utf8(encode_utf8(text).subrange(0, b)).len() as int
}

/// Splitting the encoding of `text` at a boundary splits `text` itself.
pub proof fn lemma_split(text: Seq<char>, b: int)
    requires
        boundary(text, b),
    ensures
        0 <= chars_before(text, b) <= text.len(),
        encode_utf8(text.take(chars_before(text, b))) == encode_utf8(text).subrange(0, b),
        encode_utf8(text.skip(chars_before(text, b))) == encode_utf8(text).subrange(b, encode_utf8(text).len() as int),
        b == 0 <==> chars_before(text, b) == 0,
{
    let bytes = encode_utf8(text);
    encode_utf8_valid_utf8(text);
    encode_utf8_decode_utf8(text);
    decode_utf8_split(bytes, b);
    valid_utf8_split(bytes, b);
    let left = decode_utf8(bytes.subrange(0, b));
    let right = decode_utf8(bytes.subrange(b, bytes.len() as int));
    assert(text =~= left + right);
    assert(text.take(left.len() as int) =~= left);
    assert(text.skip(left.len() as int) =~= right);
    decode_utf8_encode_utf8(bytes.subrange(0, b));
    decode_utf8_encode_utf8(bytes.subrange(b, bytes.len() as int));
    if b == 0 {
        assert(bytes.subrange(0, b) =~= Seq::<u8>::empty());
    } else {
        assert(bytes.subrange(0, b).len() > 0);
        assert(left.len() > 0);
    }
}

/// Splits `s` at byte offset `b`, which falls between two characters.
pub fn split_at_boundary(s: &str, b: usize) -> (result: (&str, &str))
    requires
        boundary(s@, b as int),
    ensures
        result.0@ == s@.take(chars_before(s@, b as int)),
        result.1@ == s@.skip(chars_before(s@, b as int)),
{
    proof {
        lemma_split(s@, b as int);
    }
    let (left, right) = s.split_at(b);
    proof {
        let k = chars_before(s@, b as int);
        encode_utf8_decode_utf8(left@);
        encode_utf8_decode_utf8(s@.take(k));
        encode_utf8_decode_utf8(right@);
        encode_utf8_decode_utf8(s@.skip(k));
    }
    (left, right)
}

/// A boundary of `text` after `s` is a boundary of what follows `s`.
pub proof fn lemma_boundary_after(text: Seq<char>, s: int, e: int)
    requires
        boundary(text, s),
        boundary(text, e),
        s <= e,
    ensures
        boundary(text.skip(chars_before(text, s)), e - s),
{
    lemma_split(text, s);
    let bytes = encode_utf8(text);
    let rest = text.skip(chars_before(text, s));
    let sub = bytes.subrange(s, bytes.len() as int);
    assert(encode_utf8(rest) == sub);
    encode_utf8_valid_utf8(text);
    encode_utf8_valid_utf8(rest);
    if e < bytes.len() {
        is_char_boundary_iff_not_is_continuation_byte(bytes, e);
        assert(sub[e - s] == bytes[e]);
        is_char_boundary_iff_not_is_continuation_byte(sub, e - s);
    } else {
        is_char_boundary_start_end_of_seq(sub);
    }
}

/// The text of a span from byte `s` to byte `e`: the characters after the
/// first `chars_before(text, s)`, as many as lie before `e`.
pub open spec fn span_text(text: Seq<char>, s: int, e: int) -> Seq<char> {
    let rest = text.skip(chars_before(text, s));
    rest.take(chars_before(rest, e - s))
}

/// What follows a span that ends at byte `e`.
pub open spec fn after_span(text: Seq<char>, s: int, e: int) -> Seq<char> {
    let rest = text.skip(chars_before(text, s));
    rest.skip(chars_before(rest, e - s))
}

/// The span from `s` to `e` lies in `text` and is not empty, so that skipping
/// it makes progress.
pub open spec fn consumes(text: Seq<char>, s: int, e: int) -> bool {
    let cs = chars_before(text, s);
    let ce = chars_before(text.skip(cs), e - s);
    &&& 0 <= cs
    &&& 0 <= ce
    &&& 0 < cs + ce
    &&& cs + ce <= text.len()
}

/// Cuts the span from byte `s` to byte `e` out of `text`: its text, and what
/// follows it.
pub fn split_span(text: &str, s: usize, e: usize) -> (result: (&str, &str))
    requires
        boundary(text@, s as int),
        boundary(text@, e as int),
        s <= e,
    ensures
        result.0@ == span_text(text@, s as int, e as int),
        result.1@ == after_span(text@, s as int, e as int),
        consumes(text@, s as int, e as int) <==> 0 < e,
        consumes(text@, s as int, e as int) ==> after_span(text@, s as int, e as int).len() < text@.len(),
{
    proof {
        lemma_boundary_after(text@, s as int, e as int);
        lemma_split(text@, s as int);
        lemma_split(text@.skip(chars_before(text@, s as int)), e - s);
    }
    let (_, from_start) = split_at_boundary(text, s);
    split_at_boundary(from_start, e - s)
}

/// The width in bytes of the UTF-8 encoding of `c`.
fn utf8_width(c: char) -> (w: usize)
    ensures
        w == encode_scalar(c as u32).len(),
        1 <= w <= 4,
{
    proof {
        char_is_scalar(c);
    }
    let u = c as u32;
    if u <= 0x7F {
        1
    } else if u <= 0x7FF {
        2
    } else if u <= 0xFFFF {
        3
    } else {
        4
    }
}

/// The first character of a text that is not empty, and the rest.
pub fn split_first_char(text: &str) -> (result: (char, &str))
    requires
        text@.len() > 0,
    ensures
        result.0 == text@[0],
        result.1@ == text@.drop_first(),
{
    let c = text.get_char(0);
    let w = utf8_width(c);
    proof {
        let bytes = encode_utf8(text@);
        encode_utf8_valid_utf8(text@);
        encode_utf8_first_scalar(text@);
        assert(bytes == encode_scalar(c as u32) + encode_utf8(text@.drop_first()));
        assert(pop_first_scalar(bytes) == bytes.subrange(w as int, bytes.len() as int));
        is_char_boundary_start_end_of_seq(pop_first_scalar(bytes));
        assert(pop_first_scalar(bytes).subrange(0, 0) =~= Seq::<u8>::empty());
        assert(is_char_boundary(bytes, w as int));
        assert(bytes.subrange(0, w as int) =~= encode_utf8(seq![c])) by {
            assert(seq![c].drop_first() =~= Seq::<char>::empty());
            assert(encode_utf8(Seq::<char>::empty()) =~= Seq::<u8>::empty());
            assert(encode_utf8(seq![c]) =~= encode_scalar(c as u32) + encode_utf8(Seq::<char>::empty()));
        }
        encode_utf8_decode_utf8(seq![c]);
        assert(chars_before(text@, w as int) == 1);
    }
    let (_, rest) = split_at_boundary(text, w);
    proof {
        assert(text@.skip(1) =~= text@.drop_first());
    }
    (c, rest)
}

/// The number of characters before the first white space of `text`, or its
/// length where it has none.
pub open spec fn word_len(text: Seq<char>) -> nat
    decreases text.len(),
{
    if text.len() == 0 || is_white_space(text[0]) {
        0
    } else {
        1 + word_len(text.drop_first())
    }
}

/// The first word of a text that does not start with white space: what
/// `split_whitespace().next()` gives there.
pub open spec fn first_word(text: Seq<char>) -> Seq<char> {
    text.take(word_len(text) as int)
}

proof fn lemma_word_len(text: Seq<char>, i: int)
    requires
        0 <= i <= text.len(),
        forall|j: int| 0 <= j < i ==> !is_white_space(#[trigger] text[j]),
        i == text.len() || is_white_space(text[i]),
    ensures
        word_len(text) == i,
    decreases i,
{
    if i > 0 {
        assert forall|j: int| 0 <= j < i - 1 implies !is_white_space(#[trigger] text.drop_first()[j]) by {
            assert(text.drop_first()[j] == text[j + 1]);
        }
        if i < text.len() {
            assert(text.drop_first()[i - 1] == text[i]);
        }
        lemma_word_len(text.drop_first(), i - 1);
    }
}

/// The first word of `text`, up to the first white space.
pub fn take_first_word(text: &str) -> (result: String)
    ensures
        result@ == first_word(text@),
{
    let n = text.unicode_len();
    let mut i: usize = 0;
    while i < n && !is_whitespace(text.get_char(i))
        invariant
            n == text@.len(),
            i <= n,
            forall|j: int| 0 <= j < i ==> !is_white_space(#[trigger] text@[j]),
        decreases n - i,
    {
        i = i + 1;
    }
    proof {
        lemma_word_len(text@, i as int);
    }
    text.substring_char(0, i).to_owned()
}

/// The decimal value of a sequence of digits.
pub open spec fn digits_value(d: Seq<char>) -> int
    decreases d.len(),
{
    if d.len() == 0 {
        0
    } else {
        digits_value(d.drop_last()) * 10 + (d.last() as int - '0' as int)
    }
}

pub open spec fn all_digits(d: Seq<char>) -> bool {
    forall|i: int| 0 <= i < d.len() ==> '0' <= #[trigger] d[i] <= '9'
}

/// What `str::parse::<i32>` gives: an optional `+` or `-` and at least one
/// decimal digit, with a value that fits in an `i32`; nothing else parses.
pub open spec fn spec_parse_i32(s: Seq<char>) -> Option<i32> {
    let negative = s.len() > 0 && s[0] == '-';
    let d = if s.len() > 0 && (s[0] == '-' || s[0] == '+') {
        s.drop_first()
    } else {
        s
    };
    let v = if negative {
        -digits_value(d)
    } else {
        digits_value(d)
    };
    if d.len() > 0 && all_digits(d) && i32::MIN <= v <= i32::MAX {
        Some(v as i32)
    } else {
        None
    }
}

proof fn lemma_digits_value_grows(d: Seq<char>, i: int)
    requires
        0 <= i <= d.len(),
        all_digits(d),
    ensures
        digits_value(d.take(i)) <= digits_value(d),
        0 <= digits_value(d.take(i)),
    decreases d.len() - i,
{
    if i < d.len() {
        lemma_digits_value_grows(d, i + 1);
        assert(d.take(i + 1).drop_last() =~= d.take(i));
        lemma_digits_value_nonnegative(d.take(i));
    } else {
        assert(d.take(i) =~= d);
        lemma_digits_value_nonnegative(d);
    }
}

proof fn lemma_digits_value_nonnegative(d: Seq<char>)
    requires
        all_digits(d),
    ensures
        0 <= digits_value(d),
    decreases d.len(),
{
    if d.len() > 0 {
        lemma_digits_value_nonnegative(d.drop_last());
    }
}

/// Parses a decimal `i32` as `str::parse::<i32>` does.
pub fn parse_i32(s: &str) -> (result: Option<i32>)
    ensures
        result == spec_parse_i32(s@),
{
    let n = s.unicode_len();
    if n == 0 {
        return None;
    }
    let first = s.get_char(0);
    let negative = first == '-';
    let start: usize = if first == '-' || first == '+' {
        1
    } else {
        0
    };
    let ghost d = if s@.len() > 0 && (s@[0] == '-' || s@[0] == '+') {
        s@.drop_first()
    } else {
        s@
    };
    proof {
        assert(forall|j: int| 0 <= j < d.len() ==> d[j] == s@[j + start]);
    }
    if start == n {
        return None;
    }
    let mut value: i64 = 0;
    let mut i: usize = start;
    while i < n
        invariant
            start <= i <= n,
            n == s@.len(),
            d == (if s@.len() > 0 && (s@[0] == '-' || s@[0] == '+') {
                s@.drop_first()
            } else {
                s@
            }),
            d.len() == n - start,
            forall|j: int| 0 <= j < d.len() ==> d[j] == s@[j + start],
            all_digits(d.take(i - start)),
            value == digits_value(d.take(i - start)),
            0 <= value <= 0x8000_0000,
        decreases n - i,
    {
        let c = s.get_char(i);
        if c < '0' || '9' < c {
            proof {
                assert(d[i - start] == c);
                assert(!all_digits(d));
            }
            return None;
        }
        let digit = (c as u32 - '0' as u32) as i64;
        proof {
            assert(d.take(i + 1 - start).drop_last() =~= d.take(i - start));
            assert(d.take(i + 1 - start).last() == c);
        }
        value = value * 10 + digit;
        i = i + 1;
        if value > 0x8000_0000 {
            proof {
                if all_digits(d) {
                    lemma_digits_value_grows(d, i - start);
                    assert(digits_value(d) > 0x8000_0000);
                }
            }
            return None;
        }
    }
    proof {
        assert(d.take(n - start) =~= d);
    }
    if negative {
        Some((0 - value) as i32)
    } else if value <= 0x7FFF_FFFF {
        Some(value as i32)
    } else {
        None
    }
}

} // verus!
