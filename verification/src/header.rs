//! The header record and its decoding from hexadecimal text.

use crate::address::V6Address;
use crate::bits::{extract, place};
use crate::error::ParseError;
use crate::hex::{
    is_hex_digit, is_hex_text, lemma_hex_prefix_len, lemma_hex_text_join, lemma_hex_text_len,
    parse_word, push_word,
};
use crate::layout::{
    address_of_words, encode, lemma_fields_of_words_in_range, numbers, parse, text_of_words,
    word_of_groups, words_of_fields, words_of_text, HeaderFields,
    FLOW_LABEL_BITS, FLOW_LABEL_LOW, GROUP_BITS, HEADER_DIGITS, HEADER_WORDS, HOP_LIMIT_BITS,
    HOP_LIMIT_LOW, NEXT_HEADER_BITS, NEXT_HEADER_LOW, PAYLOAD_LENGTH_BITS, PAYLOAD_LENGTH_LOW,
    TRAFFIC_CLASS_BITS, TRAFFIC_CLASS_LOW, VERSION_BITS, VERSION_LOW, WORD_DIGITS,
};
use vstd::arithmetic::power2::lemma2_to64;
use vstd::prelude::*;

verus! {

/// The record of a decoded header. Its fields are fixed when it is made.
#[derive(Clone, Copy, Debug, PartialEq, Eq)]
pub struct V6Header {
    version: u8,
    traffic_class: u8,
    flow_label: u32,
    payload_length: u16,
    next_header: u8,
    hop_limit: u8,
    source_address: V6Address,
    destination_address: V6Address,
}

impl View for V6Header {
    type V = HeaderFields;

    closed spec fn view(&self) -> HeaderFields {
        HeaderFields {
            version: self.version as nat,
            traffic_class: self.traffic_class as nat,
            flow_label: self.flow_label as nat,
            payload_length: self.payload_length as nat,
            next_header: self.next_header as nat,
            hop_limit: self.hop_limit as nat,
            source_address: self.source_address@,
            destination_address: self.destination_address@,
        }
    }
}

impl V6Header {
    #[verifier::type_invariant]
    spec fn fields_fit(self) -> bool {
        &&& self.version <= 15
        &&& self.flow_label <= 1_048_575
    }

    /// Whether `result` is what decoding makes of `text`: a header with the
    /// fields that `text` encodes, or the reason why `text` is no header.
    pub open spec fn is_decoding_of(text: Seq<char>, result: Result<V6Header, ParseError>) -> bool {
        match result {
            Ok(decoded) => parse(text) == Ok::<HeaderFields, ParseError>(decoded@),
            Err(reason) => parse(text) == Err::<HeaderFields, ParseError>(reason),
        }
    }

    /// Decodes the header that the first eighty characters of `header`
    /// write in hexadecimal; what follows them is not looked at.
    ///
    /// The text is rejected if it has fewer than eighty characters, or if
    /// one of the first eighty is not among `0`-`9`, `a`-`f` and `A`-`F`.
    pub fn new(header: &str) -> (r: Result<V6Header, ParseError>)
        ensures
            Self::is_decoding_of(header@, r),
            r is Ok <==> HEADER_DIGITS <= header@.len() && is_hex_text(
                header@.take(HEADER_DIGITS as int),
            ),
            r matches Ok(decoded) ==> decoded@.in_range(),
    {
        let length: usize = header.unicode_len();
        if length < HEADER_DIGITS {
            return Err(ParseError::TooShort { length });
        }
        let words: [u32; 10] = match parse_words(header) {
            Ok(words) => words,
            Err(position) => {
                proof {
                    lemma_hex_prefix_len(header@.take(HEADER_DIGITS as int), position as int);
                }
                return Err(ParseError::InvalidDigit { position });
            },
        };
        proof {
            lemma_fields_of_words_in_range(words_of_text(header@));
        }
        let decoded = V6Header {
            version: extract(words[0], VERSION_LOW, VERSION_BITS) as u8,
            traffic_class: extract(words[0], TRAFFIC_CLASS_LOW, TRAFFIC_CLASS_BITS) as u8,
            flow_label: extract(words[0], FLOW_LABEL_LOW, FLOW_LABEL_BITS),
            payload_length: extract(words[1], PAYLOAD_LENGTH_LOW, PAYLOAD_LENGTH_BITS) as u16,
            next_header: extract(words[1], NEXT_HEADER_LOW, NEXT_HEADER_BITS) as u8,
            hop_limit: extract(words[1], HOP_LIMIT_LOW, HOP_LIMIT_BITS) as u8,
            source_address: address_in_words(&words, 2),
            destination_address: address_in_words(&words, 6),
        };
        Ok(decoded)
    }

    /// The version, at most 15.
    pub fn version(&self) -> (r: u8)
        ensures
            r == self@.version,
            r <= 15,
    {
        proof {
            use_type_invariant(self);
        }
        self.version
    }

    /// The traffic class.
    pub fn traffic_class(&self) -> (r: u8)
        ensures
            r == self@.traffic_class,
    {
        self.traffic_class
    }

    /// The flow label, at most 1,048,575.
    pub fn flow_label(&self) -> (r: u32)
        ensures
            r == self@.flow_label,
            r <= 1_048_575,
    {
        proof {
            use_type_invariant(self);
        }
        self.flow_label
    }

    /// The length of the payload.
    pub fn payload_length(&self) -> (r: u16)
        ensures
            r == self@.payload_length,
    {
        self.payload_length
    }

    /// The code of the header that follows.
    pub fn next_header(&self) -> (r: u8)
        ensures
            r == self@.next_header,
    {
        self.next_header
    }

    /// The hop limit.
    pub fn hop_limit(&self) -> (r: u8)
        ensures
            r == self@.hop_limit,
    {
        self.hop_limit
    }

    /// The address of the sender.
    pub fn source_address(&self) -> (r: V6Address)
        ensures
            r@ == self@.source_address,
    {
        self.source_address
    }

    /// The address of the receiver.
    pub fn destination_address(&self) -> (r: V6Address)
        ensures
            r@ == self@.destination_address,
    {
        self.destination_address
    }

    /// Writes the header as eighty lower-case hexadecimal digits, from which
    /// `new` decodes it again.
    pub fn to_hex(&self) -> (text: String)
        ensures
            text@ == encode(self@),
    {
        let words = self.words();
        let mut text = String::new();
        push_words(&mut text, &words);
        text
    }

    /// The ten words that hold the header.
    fn words(&self) -> (words: [u32; 10])
        ensures
            numbers(words@) == words_of_fields(self@),
    {
        proof {
            use_type_invariant(self);
            lemma2_to64();
        }
        let first: u32 = place(self.version as u32, VERSION_LOW) + place(
            self.traffic_class as u32,
            TRAFFIC_CLASS_LOW,
        ) + place(self.flow_label, FLOW_LABEL_LOW);
        let second: u32 = place(self.payload_length as u32, PAYLOAD_LENGTH_LOW) + place(
            self.next_header as u32,
            NEXT_HEADER_LOW,
        ) + place(self.hop_limit as u32, HOP_LIMIT_LOW);
        let source = &self.source_address.groups;
        let destination = &self.destination_address.groups;
        let words: [u32; 10] = [
            first,
            second,
            join_groups(source[0], source[1]),
            join_groups(source[2], source[3]),
            join_groups(source[4], source[5]),
            join_groups(source[6], source[7]),
            join_groups(destination[0], destination[1]),
            join_groups(destination[2], destination[3]),
            join_groups(destination[4], destination[5]),
            join_groups(destination[6], destination[7]),
        ];
        words
    }
}

/// The word that holds `upper` in its upper half and `lower` in its lower.
fn join_groups(upper: u16, lower: u16) -> (word: u32)
    ensures
        word == word_of_groups(upper as nat, lower as nat),
{
    proof {
        lemma2_to64();
    }
    place(upper as u32, GROUP_BITS) + lower as u32
}

/// Appends to `out` the digits of each of `words`, eight to a word.
fn push_words(out: &mut String, words: &[u32; 10])
    ensures
        final(out)@ == old(out)@ + text_of_words(numbers(words@)),
{
    let ghost before = out@;
    let mut done: usize = 0;
    while done < HEADER_WORDS
        invariant
            done <= HEADER_WORDS,
            out@ == before + text_of_words(numbers(words@).take(done as int)),
        decreases HEADER_WORDS - done,
    {
        push_word(out, words[done]);
        proof {
            lemma_hex_text_len(words@[done as int] as nat, 8);
        }
        done = done + 1;
    }
}

/// Decoding is a function of the text: whatever `new` returns for one text
/// is the same each time.
pub proof fn theorem_decoding_is_deterministic(
    text: Seq<char>,
    once: Result<V6Header, ParseError>,
    again: Result<V6Header, ParseError>,
)
    requires
        V6Header::is_decoding_of(text, once),
        V6Header::is_decoding_of(text, again),
    ensures
        once == again,
{
    match (once, again) {
        (Ok(a), Ok(b)) => {
            lemma_same_groups(a.source_address, b.source_address);
            lemma_same_groups(a.destination_address, b.destination_address);
        },
        _ => {},
    }
}

/// Two addresses with the same groups are the same address.
proof fn lemma_same_groups(a: V6Address, b: V6Address)
    requires
        a@ == b@,
    ensures
        a == b,
{
    assert forall|i: int| 0 <= i < 8 implies a.groups@[i] == b.groups@[i] by {
        assert(b@[i] == b.groups@[i] as nat);
    }
    assert(a.groups =~= b.groups);
}

/// Reads the ten words that the first eighty characters of `text` write, or
/// finds the first character among them that is no hexadecimal digit.
fn parse_words(text: &str) -> (r: Result<[u32; 10], usize>)
    requires
        HEADER_DIGITS <= text@.len(),
    ensures
        match r {
            Ok(words) => {
                &&& is_hex_text(text@.take(HEADER_DIGITS as int))
                &&& numbers(words@) == words_of_text(text@)
            },
            Err(at) => {
                &&& at < HEADER_DIGITS
                &&& !is_hex_digit(text@[at as int])
                &&& is_hex_text(text@.take(at as int))
            },
        },
{
    let mut words: [u32; 10] = [0u32; 10];
    let mut done: usize = 0;
    while done < HEADER_WORDS
        invariant
            done <= HEADER_WORDS,
            HEADER_DIGITS <= text@.len(),
            is_hex_text(text@.take(WORD_DIGITS * done)),
            forall|i: int| 0 <= i < done ==> words@[i] as nat == #[trigger] words_of_text(text@)[i],
        decreases HEADER_WORDS - done,
    {
        let start: usize = WORD_DIGITS * done;
        match parse_word(text, start) {
            Err(at) => {
                proof {
                    lemma_hex_text_join(text@, 0, start as int, at as int);
                }
                return Err(at);
            },
            Ok(word) => {
                proof {
                    lemma_hex_text_join(text@, 0, start as int, start + WORD_DIGITS);
                }
                words[done] = word;
                done = done + 1;
            },
        }
    }
    Ok(words)
}

/// Cuts the address out of the four words of `words` that begin at `first`.
fn address_in_words(words: &[u32; 10], first: usize) -> (address: V6Address)
    requires
        first + 4 <= HEADER_WORDS,
    ensures
        address@ == address_of_words(numbers(words@), first as int),
{
    let mut groups: [u16; 8] = [0u16; 8];
    let mut done: usize = 0;
    while done < 4
        invariant
            done <= 4,
            first + 4 <= HEADER_WORDS,
            forall|i: int|
                0 <= i < 2 * done ==> groups@[i] as nat == #[trigger] address_of_words(
                    numbers(words@),
                    first as int,
                )[i],
        decreases 4 - done,
    {
        let word: u32 = words[first + done];
        proof {
            lemma2_to64();
        }
        groups[2 * done] = extract(word, GROUP_BITS, GROUP_BITS) as u16;
        groups[2 * done + 1] = extract(word, 0, GROUP_BITS) as u16;
        done = done + 1;
    }
    let address = V6Address { groups };
    address
}

} // verus!
