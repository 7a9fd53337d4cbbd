//! What holds of decoding and encoding for every text and every header.

use crate::error::ParseError;
use crate::hex::{
    hex_bytes, hex_prefix_len, is_hex_digit, is_hex_text, lemma_hex_bytes_ignore_case, lower_hex,
};
use crate::layout::{
    decode, encode, lemma_fields_of_words_in_range, lemma_fields_of_words_of_fields,
    lemma_text_of_words_of_text, lemma_words_of_fields_of_words, lemma_words_of_text,
    lemma_words_of_text_of_words, parse, words_of_fields, words_of_text, HeaderFields,
    FLOW_LABEL_BITS, FLOW_LABEL_LOW, GROUP_BITS, HEADER_DIGITS, HEADER_WORDS, HOP_LIMIT_BITS,
    HOP_LIMIT_LOW, NEXT_HEADER_BITS, NEXT_HEADER_LOW, PAYLOAD_LENGTH_BITS, PAYLOAD_LENGTH_LOW,
    TRAFFIC_CLASS_BITS, TRAFFIC_CLASS_LOW, VERSION_BITS, VERSION_LOW, WORD_DIGITS,
};
use vstd::prelude::*;

verus! {

/// The fields take up the header and no more. In each of the first two
/// words three fields lie one above the other, from bit 0 to bit 31; an
/// address is eight groups; and all the fields together have 320 bits, four
/// for each of the eighty digits.
pub proof fn theorem_fields_fill_the_header()
    ensures
        FLOW_LABEL_LOW == 0,
        TRAFFIC_CLASS_LOW == FLOW_LABEL_LOW + FLOW_LABEL_BITS,
        VERSION_LOW == TRAFFIC_CLASS_LOW + TRAFFIC_CLASS_BITS,
        VERSION_LOW + VERSION_BITS == 32,
        HOP_LIMIT_LOW == 0,
        NEXT_HEADER_LOW == HOP_LIMIT_LOW + HOP_LIMIT_BITS,
        PAYLOAD_LENGTH_LOW == NEXT_HEADER_LOW + NEXT_HEADER_BITS,
        PAYLOAD_LENGTH_LOW + PAYLOAD_LENGTH_BITS == 32,
        2 * GROUP_BITS == 32,
        HEADER_DIGITS == WORD_DIGITS * HEADER_WORDS,
        VERSION_BITS + TRAFFIC_CLASS_BITS + FLOW_LABEL_BITS + PAYLOAD_LENGTH_BITS
            + NEXT_HEADER_BITS + HOP_LIMIT_BITS + 8 * GROUP_BITS + 8 * GROUP_BITS == 320,
        4 * HEADER_DIGITS == 320,
{
}

/// Decoding a text that begins with eighty hexadecimal digits and encoding
/// the fields again gives those eighty digits back in lower case, and so the
/// same forty bytes, whatever the case of the letters in the text was.
pub proof fn theorem_encode_after_decode(text: Seq<char>)
    requires
        HEADER_DIGITS <= text.len(),
        is_hex_text(text.take(HEADER_DIGITS as int)),
    ensures
        parse(text) == Ok::<HeaderFields, ParseError>(decode(text)),
        encode(decode(text)) == lower_hex(text.take(HEADER_DIGITS as int)),
        hex_bytes(encode(decode(text))) == hex_bytes(text.take(HEADER_DIGITS as int)),
{
    lemma_words_of_text(text);
    lemma_words_of_fields_of_words(words_of_text(text));
    lemma_text_of_words_of_text(text);
    lemma_hex_bytes_ignore_case(text.take(HEADER_DIGITS as int));
}

/// Encoding fields that are in range gives eighty hexadecimal digits, and
/// decoding these gives the fields back.
pub proof fn theorem_decode_after_encode(fields: HeaderFields)
    requires
        fields.in_range(),
    ensures
        encode(fields).len() == HEADER_DIGITS,
        is_hex_text(encode(fields)),
        parse(encode(fields)) == Ok::<HeaderFields, ParseError>(fields),
{
    lemma_fields_of_words_of_fields(fields);
    lemma_words_of_text_of_words(words_of_fields(fields));
}

/// Whatever a text decodes to, each field is in the range of its bits:
/// the version at most 15; the traffic class, the next header code and the
/// hop limit at most 255; the flow label at most 1,048,575; the payload
/// length and each group of the two addresses at most 65,535.
pub proof fn theorem_decoded_fields_in_range(text: Seq<char>)
    ensures
        decode(text).in_range(),
        parse(text) matches Ok(fields) ==> fields.in_range(),
{
    lemma_fields_of_words_in_range(words_of_text(text));
}

/// A text is rejected exactly when it has fewer than eighty characters or
/// one of its first eighty characters is no hexadecimal digit. The error
/// tells which: the length of a text that is too short, and else the place
/// of the first character that is no digit.
pub proof fn theorem_rejects_what_is_no_header(text: Seq<char>)
    ensures
        parse(text) is Err <==> text.len() < HEADER_DIGITS || !is_hex_text(
            text.take(HEADER_DIGITS as int),
        ),
        parse(text) matches Err(ParseError::TooShort { length }) ==> length == text.len()
            < HEADER_DIGITS,
        parse(text) matches Err(ParseError::InvalidDigit { position }) ==> {
            &&& HEADER_DIGITS <= text.len()
            &&& position < HEADER_DIGITS
            &&& !is_hex_digit(text[position as int])
            &&& is_hex_text(text.take(position as int))
        },
{
    if HEADER_DIGITS <= text.len() && !is_hex_text(text.take(HEADER_DIGITS as int)) {
        let head = text.take(HEADER_DIGITS as int);
        let at = choose|i: int| 0 <= i < head.len() && !is_hex_digit(head[i]);
        lemma_first_bad_digit(head, at);
        let first = hex_prefix_len(head) as int;
        assert(head.take(first) =~= text.take(first));
    }
}

/// Where some character of `s` is no hexadecimal digit, the length of the
/// hexadecimal prefix of `s` is the place of the first such character.
proof fn lemma_first_bad_digit(s: Seq<char>, at: int)
    requires
        0 <= at < s.len(),
        !is_hex_digit(s[at]),
    ensures
        hex_prefix_len(s) <= at,
        !is_hex_digit(s[hex_prefix_len(s) as int]),
        is_hex_text(s.take(hex_prefix_len(s) as int)),
    decreases s.len(),
{
    if is_hex_digit(s[0]) {
        let rest = s.drop_first();
        lemma_first_bad_digit(rest, at - 1);
        let found = hex_prefix_len(rest) as int;
        assert forall|i: int| 0 <= i < found + 1 implies is_hex_digit(
            #[trigger] s.take(found + 1)[i],
        ) by {
            if i > 0 {
                assert(s.take(found + 1)[i] == rest.take(found)[i - 1]);
            }
        }
    }
}

/// Decoding looks at nothing but the first eighty characters: two texts that
/// agree in them are decoded alike, whatever follows.
pub proof fn theorem_decoding_reads_eighty_characters(text: Seq<char>, other: Seq<char>)
    requires
        HEADER_DIGITS <= text.len(),
        HEADER_DIGITS <= other.len(),
        text.take(HEADER_DIGITS as int) == other.take(HEADER_DIGITS as int),
    ensures
        parse(text) == parse(other),
{
    assert forall|i: int| 0 <= i < 10 implies #[trigger] words_of_text(text)[i] == words_of_text(
        other,
    )[i] by {
        let here = text.subrange(8 * i, 8 * i + 8);
        let there = other.subrange(8 * i, 8 * i + 8);
        assert forall|j: int| 0 <= j < 8 implies here[j] == there[j] by {
            assert(there[j] == other.take(HEADER_DIGITS as int)[8 * i + j]);
        }
        assert(here =~= there);
    }
    assert(words_of_text(text) =~= words_of_text(other));
}

} // verus!
