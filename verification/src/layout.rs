//! Where the fields lie in the forty bytes of a header, and what a text of
//! eighty hexadecimal digits therefore means.

use crate::bits::{bit_field, lemma_bit_field_join, lemma_bit_field_split};
use crate::error::ParseError;
use crate::hex::{
    hex_prefix_len, hex_text, hex_value, is_hex_text, lemma_hex_text_of_value,
    lemma_hex_value_bound, lemma_hex_value_of_text, lower_hex,
};
use vstd::arithmetic::power2::{lemma2_to64, lemma_pow2_adds, pow2};
use vstd::prelude::*;

verus! {

/// Number of hexadecimal digits that make up a header.
pub const HEADER_DIGITS: usize = 80;

/// Number of hexadecimal digits in one 32-bit word.
pub const WORD_DIGITS: usize = 8;

/// Number of 32-bit words in a header.
pub const HEADER_WORDS: usize = 10;

/// Width of the version field, in bits.
pub const VERSION_BITS: u32 = 4;

/// Width of the traffic class field, in bits.
pub const TRAFFIC_CLASS_BITS: u32 = 8;

/// Width of the flow label field, in bits.
pub const FLOW_LABEL_BITS: u32 = 20;

/// Width of the payload length field, in bits.
pub const PAYLOAD_LENGTH_BITS: u32 = 16;

/// Width of the next header field, in bits.
pub const NEXT_HEADER_BITS: u32 = 8;

/// Width of the hop limit field, in bits.
pub const HOP_LIMIT_BITS: u32 = 8;

/// Width of one group of an address, in bits.
pub const GROUP_BITS: u32 = 16;

/// Position of the lowest bit of the version in the first word.
pub const VERSION_LOW: u32 = 28;

/// Position of the lowest bit of the traffic class in the first word.
pub const TRAFFIC_CLASS_LOW: u32 = 20;

/// Position of the lowest bit of the flow label in the first word.
pub const FLOW_LABEL_LOW: u32 = 0;

/// Position of the lowest bit of the payload length in the second word.
pub const PAYLOAD_LENGTH_LOW: u32 = 16;

/// Position of the lowest bit of the next header code in the second word.
pub const NEXT_HEADER_LOW: u32 = 8;

/// Position of the lowest bit of the hop limit in the second word.
pub const HOP_LIMIT_LOW: u32 = 0;

/// The fields of a header as numbers.
pub struct HeaderFields {
    pub version: nat,
    pub traffic_class: nat,
    pub flow_label: nat,
    pub payload_length: nat,
    pub next_header: nat,
    pub hop_limit: nat,
    pub source_address: Seq<nat>,
    pub destination_address: Seq<nat>,
}

/// Whether `groups` holds eight numbers of sixteen bits each.
pub open spec fn is_address(groups: Seq<nat>) -> bool {
    &&& groups.len() == 8
    &&& forall|i: int| 0 <= i < 8 ==> #[trigger] groups[i] <= 0xffff
}

impl HeaderFields {
    /// Whether every field fits in the bits that the header gives it.
    pub open spec fn in_range(self) -> bool {
        &&& self.version <= 15
        &&& self.traffic_class <= 255
        &&& self.flow_label <= 1_048_575
        &&& self.payload_length <= 65_535
        &&& self.next_header <= 255
        &&& self.hop_limit <= 255
        &&& is_address(self.source_address)
        &&& is_address(self.destination_address)
    }
}

/// The ten 32-bit words that the first eighty characters of `text` write,
/// eight hexadecimal digits to a word.
pub open spec fn words_of_text(text: Seq<char>) -> Seq<nat> {
    Seq::new(
        HEADER_WORDS as nat,
        |i: int| hex_value(text.subrange(WORD_DIGITS * i, WORD_DIGITS * i + WORD_DIGITS)),
    )
}

/// The words of `words` as numbers.
pub open spec fn numbers(words: Seq<u32>) -> Seq<nat> {
    Seq::new(words.len(), |i: int| words[i] as nat)
}

/// The address held by the four words of `words` that begin at `first`: each
/// word gives two groups, its upper half before its lower half.
pub open spec fn address_of_words(words: Seq<nat>, first: int) -> Seq<nat> {
    Seq::new(
        8,
        |i: int|
            bit_field(
                words[first + i / 2],
                if i % 2 == 0 {
                    GROUP_BITS as nat
                } else {
                    0
                },
                GROUP_BITS as nat,
            ),
    )
}

/// The fields that ten header words hold.
pub open spec fn fields_of_words(words: Seq<nat>) -> HeaderFields {
    HeaderFields {
        version: bit_field(words[0], VERSION_LOW as nat, VERSION_BITS as nat),
        traffic_class: bit_field(words[0], TRAFFIC_CLASS_LOW as nat, TRAFFIC_CLASS_BITS as nat),
        flow_label: bit_field(words[0], FLOW_LABEL_LOW as nat, FLOW_LABEL_BITS as nat),
        payload_length: bit_field(words[1], PAYLOAD_LENGTH_LOW as nat, PAYLOAD_LENGTH_BITS as nat),
        next_header: bit_field(words[1], NEXT_HEADER_LOW as nat, NEXT_HEADER_BITS as nat),
        hop_limit: bit_field(words[1], HOP_LIMIT_LOW as nat, HOP_LIMIT_BITS as nat),
        source_address: address_of_words(words, 2),
        destination_address: address_of_words(words, 6),
    }
}

/// The fields that the first eighty characters of `text` encode.
pub open spec fn decode(text: Seq<char>) -> HeaderFields {
    fields_of_words(words_of_text(text))
}

/// The word that holds `upper` in its upper sixteen bits and `lower` in its
/// lower sixteen.
pub open spec fn word_of_groups(upper: nat, lower: nat) -> nat {
    upper * pow2(GROUP_BITS as nat) + lower
}

/// The ten words that hold `fields`.
pub open spec fn words_of_fields(fields: HeaderFields) -> Seq<nat> {
    let source = fields.source_address;
    let destination = fields.destination_address;
    seq![
        fields.version * pow2(VERSION_LOW as nat) + fields.traffic_class * pow2(
            TRAFFIC_CLASS_LOW as nat,
        ) + fields.flow_label * pow2(FLOW_LABEL_LOW as nat),
        fields.payload_length * pow2(PAYLOAD_LENGTH_LOW as nat) + fields.next_header * pow2(
            NEXT_HEADER_LOW as nat,
        ) + fields.hop_limit * pow2(HOP_LIMIT_LOW as nat),
        word_of_groups(source[0], source[1]),
        word_of_groups(source[2], source[3]),
        word_of_groups(source[4], source[5]),
        word_of_groups(source[6], source[7]),
        word_of_groups(destination[0], destination[1]),
        word_of_groups(destination[2], destination[3]),
        word_of_groups(destination[4], destination[5]),
        word_of_groups(destination[6], destination[7]),
    ]
}

/// The text that writes each of `words` in eight lower-case hexadecimal
/// digits, one word after the other.
pub open spec fn text_of_words(words: Seq<nat>) -> Seq<char> {
    Seq::new(
        WORD_DIGITS as nat * words.len(),
        |i: int|
            hex_text(words[i / (WORD_DIGITS as int)], WORD_DIGITS as nat)[i % (WORD_DIGITS as int)],
    )
}

/// The eighty lower-case hexadecimal digits that write `fields` as a header.
pub open spec fn encode(fields: HeaderFields) -> Seq<char> {
    text_of_words(words_of_fields(fields))
}

/// Whether `words` holds ten numbers of thirty-two bits each.
pub open spec fn is_header_words(words: Seq<nat>) -> bool {
    &&& words.len() == HEADER_WORDS
    &&& forall|i: int| 0 <= i < HEADER_WORDS ==> #[trigger] words[i] < pow2(32)
}

/// The words read from a text are ten numbers of thirty-two bits.
pub proof fn lemma_words_of_text(text: Seq<char>)
    requires
        HEADER_DIGITS <= text.len(),
    ensures
        is_header_words(words_of_text(text)),
{
    assert forall|i: int| 0 <= i < HEADER_WORDS implies #[trigger] words_of_text(text)[i] < pow2(
        32,
    ) by {
        lemma_hex_value_bound(text.subrange(WORD_DIGITS * i, WORD_DIGITS * i + WORD_DIGITS));
    }
}

/// A word of thirty-two bits is its three fields in a row, where the fields
/// fill it: the lowest has `low` bits, the middle one `mid` bits and the
/// highest `high` bits.
proof fn lemma_word_of_three(word: nat, low: nat, mid: nat, high: nat)
    requires
        word < pow2(32),
        low + mid + high == 32,
    ensures
        bit_field(word, low + mid, high) * pow2(low + mid) + bit_field(word, low, mid) * pow2(low)
            + bit_field(word, 0, low) * pow2(0) == word,
{
    lemma2_to64();
    lemma_bit_field_split(word, low + mid, high);
    lemma_bit_field_split(word, low, mid);
}

/// The three fields of a word that was put together from three numbers, each
/// of which fits in its field, are those numbers.
proof fn lemma_three_of_word(upper: nat, middle: nat, lower: nat, low: nat, mid: nat, high: nat)
    requires
        low + mid + high == 32,
        upper < pow2(high),
        middle < pow2(mid),
        lower < pow2(low),
    ensures
        ({
            let word = upper * pow2(low + mid) + middle * pow2(low) + lower * pow2(0);
            &&& word < pow2(32)
            &&& bit_field(word, low + mid, high) == upper
            &&& bit_field(word, low, mid) == middle
            &&& bit_field(word, 0, low) == lower
        }),
{
    lemma2_to64();
    let word = upper * pow2(low + mid) + middle * pow2(low) + lower * pow2(0);
    lemma_pow2_adds(low, mid);
    lemma_pow2_adds(low + mid, high);
    // the highest field, above the two others
    assert(middle * pow2(low) + lower < pow2(low + mid)) by (nonlinear_arith)
        requires
            middle < pow2(mid),
            lower < pow2(low),
            pow2(low + mid) == pow2(low) * pow2(mid),
    ;
    lemma_bit_field_join(0, upper, middle * pow2(low) + lower, low + mid, high);
    // the middle field, between the two others
    lemma_bit_field_join(upper, middle, lower, low, mid);
    // the lowest field, below the two others
    assert((upper * pow2(mid) + middle) * pow2(0 + low) == upper * pow2(low + mid) + middle
        * pow2(low)) by (nonlinear_arith)
        requires
            pow2(low + mid) == pow2(low) * pow2(mid),
    ;
    lemma_bit_field_join(upper * pow2(mid) + middle, lower, 0, 0, low);
    assert(word < pow2(32)) by (nonlinear_arith)
        requires
            word == upper * pow2(low + mid) + (middle * pow2(low) + lower),
            upper < pow2(high),
            middle * pow2(low) + lower < pow2(low + mid),
            pow2(32) == pow2(low + mid) * pow2(high),
    ;
}

/// A word of thirty-two bits is its upper sixteen bits followed by its lower
/// sixteen.
proof fn lemma_word_of_groups(word: nat)
    requires
        word < pow2(32),
    ensures
        word_of_groups(
            bit_field(word, GROUP_BITS as nat, GROUP_BITS as nat),
            bit_field(word, 0, GROUP_BITS as nat),
        ) == word,
{
    lemma2_to64();
}

/// The two halves of a word that was put together from two groups are the
/// groups.
proof fn lemma_groups_of_word(upper: nat, lower: nat)
    requires
        upper <= 0xffff,
        lower <= 0xffff,
    ensures
        word_of_groups(upper, lower) < pow2(32),
        bit_field(word_of_groups(upper, lower), GROUP_BITS as nat, GROUP_BITS as nat) == upper,
        bit_field(word_of_groups(upper, lower), 0, GROUP_BITS as nat) == lower,
{
    lemma2_to64();
    lemma_bit_field_join(0, upper, lower, GROUP_BITS as nat, GROUP_BITS as nat);
}

/// Cutting the fields out of ten words and putting them together again
/// gives the same words.
pub proof fn lemma_words_of_fields_of_words(words: Seq<nat>)
    requires
        is_header_words(words),
    ensures
        words_of_fields(fields_of_words(words)) == words,
{
    let again = words_of_fields(fields_of_words(words));
    assert(again[0] == words[0]) by {
        lemma_word_of_three(
            words[0],
            TRAFFIC_CLASS_LOW as nat,
            TRAFFIC_CLASS_BITS as nat,
            VERSION_BITS as nat,
        );
    }
    assert(again[1] == words[1]) by {
        lemma_word_of_three(
            words[1],
            NEXT_HEADER_LOW as nat,
            NEXT_HEADER_BITS as nat,
            PAYLOAD_LENGTH_BITS as nat,
        );
    }
    assert forall|i: int| 2 <= i < HEADER_WORDS implies again[i] == words[i] by {
        lemma_word_of_groups(words[i]);
    }
}

/// Four words that were put together from the eight groups of an address
/// hold that address.
proof fn lemma_address_of_words_of_groups(groups: Seq<nat>, words: Seq<nat>, first: int)
    requires
        is_address(groups),
        0 <= first,
        first + 4 <= words.len(),
        forall|k: int|
            0 <= k < 4 ==> #[trigger] words[first + k] == word_of_groups(
                groups[2 * k],
                groups[2 * k + 1],
            ),
    ensures
        address_of_words(words, first) == groups,
        forall|k: int| 0 <= k < 4 ==> #[trigger] words[first + k] < pow2(32),
{
    let again = address_of_words(words, first);
    assert forall|k: int| 0 <= k < 4 implies {
        &&& #[trigger] words[first + k] < pow2(32)
        &&& again[2 * k] == groups[2 * k]
        &&& again[2 * k + 1] == groups[2 * k + 1]
    } by {
        lemma_groups_of_word(groups[2 * k], groups[2 * k + 1]);
    }
}

/// Putting fields that are in range into ten words and cutting them out
/// again gives the same fields.
pub proof fn lemma_fields_of_words_of_fields(fields: HeaderFields)
    requires
        fields.in_range(),
    ensures
        is_header_words(words_of_fields(fields)),
        fields_of_words(words_of_fields(fields)) == fields,
{
    let words = words_of_fields(fields);
    let again = fields_of_words(words);
    assert(words[0] < pow2(32) && again.version == fields.version && again.traffic_class
        == fields.traffic_class && again.flow_label == fields.flow_label) by {
        lemma2_to64();
        lemma_three_of_word(
            fields.version,
            fields.traffic_class,
            fields.flow_label,
            TRAFFIC_CLASS_LOW as nat,
            TRAFFIC_CLASS_BITS as nat,
            VERSION_BITS as nat,
        );
    }
    assert(words[1] < pow2(32) && again.payload_length == fields.payload_length
        && again.next_header == fields.next_header && again.hop_limit == fields.hop_limit) by {
        lemma2_to64();
        lemma_three_of_word(
            fields.payload_length,
            fields.next_header,
            fields.hop_limit,
            NEXT_HEADER_LOW as nat,
            NEXT_HEADER_BITS as nat,
            PAYLOAD_LENGTH_BITS as nat,
        );
    }
    lemma_address_of_words_of_groups(fields.source_address, words, 2);
    lemma_address_of_words_of_groups(fields.destination_address, words, 6);
}

/// Reading the words that a text of ten words writes gives the same words.
pub proof fn lemma_words_of_text_of_words(words: Seq<nat>)
    requires
        is_header_words(words),
    ensures
        text_of_words(words).len() == HEADER_DIGITS,
        is_hex_text(text_of_words(words)),
        words_of_text(text_of_words(words)) == words,
{
    let text = text_of_words(words);
    assert forall|i: int| 0 <= i < HEADER_WORDS implies #[trigger] words_of_text(text)[i]
        == words[i] by {
        lemma_hex_value_of_text(words[i], WORD_DIGITS as nat);
        assert(text.subrange(WORD_DIGITS * i, WORD_DIGITS * i + WORD_DIGITS) =~= hex_text(
            words[i],
            WORD_DIGITS as nat,
        ));
    }
    assert forall|k: int| 0 <= k < text.len() implies crate::hex::is_hex_digit(
        #[trigger] text[k],
    ) by {
        let i = k / (WORD_DIGITS as int);
        lemma_hex_value_of_text(words[i], WORD_DIGITS as nat);
    }
}

/// Writing the words that the first eighty characters of a text hold gives
/// those characters back, in lower case.
pub proof fn lemma_text_of_words_of_text(text: Seq<char>)
    requires
        HEADER_DIGITS <= text.len(),
        is_hex_text(text.take(HEADER_DIGITS as int)),
    ensures
        text_of_words(words_of_text(text)) == lower_hex(text.take(HEADER_DIGITS as int)),
{
    let head = text.take(HEADER_DIGITS as int);
    let again = text_of_words(words_of_text(text));
    assert forall|k: int| 0 <= k < HEADER_DIGITS implies again[k] == lower_hex(head)[k] by {
        let i = k / (WORD_DIGITS as int);
        let word = text.subrange(WORD_DIGITS * i, WORD_DIGITS * i + WORD_DIGITS);
        assert forall|j: int| 0 <= j < word.len() implies crate::hex::is_hex_digit(
            #[trigger] word[j],
        ) by {
            assert(word[j] == head[WORD_DIGITS * i + j]);
        }
        lemma_hex_text_of_value(word);
    }
}

/// What decoding makes of `text`: the fields, where `text` begins with
/// eighty hexadecimal digits, and else the reason why it does not.
pub open spec fn parse(text: Seq<char>) -> Result<HeaderFields, ParseError> {
    if text.len() < HEADER_DIGITS {
        Err(ParseError::TooShort { length: text.len() as usize })
    } else if !is_hex_text(text.take(HEADER_DIGITS as int)) {
        Err(
            ParseError::InvalidDigit {
                position: hex_prefix_len(text.take(HEADER_DIGITS as int)) as usize,
            },
        )
    } else {
        Ok(decode(text))
    }
}

/// Every field that is cut out of header words fits in its bits, whatever
/// the words are.
pub proof fn lemma_fields_of_words_in_range(words: Seq<nat>)
    ensures
        fields_of_words(words).in_range(),
{
    lemma2_to64();
}

} // verus!
