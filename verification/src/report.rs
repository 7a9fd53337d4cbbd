//! The decoded header as text for a reader.

use crate::address::canonical_text;
use crate::header::V6Header;
use crate::layout::HeaderFields;
use crate::text::{decimal_text, push_decimal};
use vstd::prelude::*;

verus! {

/// One line of the report: the name of a field, a colon and a space, the
/// value, and the end of the line.
pub open spec fn report_line(name: Seq<char>, value: Seq<char>) -> Seq<char> {
    name + seq![':', ' '] + value + seq!['\n']
}

/// The report on `fields`: eight lines, one for each field in the order of
/// the header, the numbers in decimal and the addresses in canonical text.
pub open spec fn report_text(fields: HeaderFields) -> Seq<char> {
    report_line("version"@, decimal_text(fields.version)) + report_line(
        "traffic_class"@,
        decimal_text(fields.traffic_class),
    ) + report_line("flow label"@, decimal_text(fields.flow_label)) + report_line(
        "payload length"@,
        decimal_text(fields.payload_length),
    ) + report_line("next header"@, decimal_text(fields.next_header)) + report_line(
        "hop limit"@,
        decimal_text(fields.hop_limit),
    ) + report_line("source address"@, canonical_text(fields.source_address)) + report_line(
        "destination address"@,
        canonical_text(fields.destination_address),
    )
}

/// Appends to `out` the line that gives the number `value` under `name`.
fn push_number_line(out: &mut String, name: &str, value: u64)
    ensures
        final(out)@ == old(out)@ + report_line(name@, decimal_text(value as nat)),
{
    proof {
        reveal_strlit(": ");
        reveal_strlit("\n");
    }
    out.append(name);
    out.append(": ");
    push_decimal(out, value);
    out.append("\n");
}

/// Appends to `out` the line that gives the text `value` under `name`.
fn push_text_line(out: &mut String, name: &str, value: &str)
    ensures
        final(out)@ == old(out)@ + report_line(name@, value@),
{
    proof {
        reveal_strlit(": ");
        reveal_strlit("\n");
    }
    out.append(name);
    out.append(": ");
    out.append(value);
    out.append("\n");
}

impl V6Header {
    /// The report on the header: eight lines, each closed by a line feed.
    pub fn report(&self) -> (text: String)
        ensures
            text@ == report_text(self@),
    {
        let mut text = String::new();
        push_number_line(&mut text, "version", self.version() as u64);
        push_number_line(&mut text, "traffic_class", self.traffic_class() as u64);
        push_number_line(&mut text, "flow label", self.flow_label() as u64);
        push_number_line(&mut text, "payload length", self.payload_length() as u64);
        push_number_line(&mut text, "next header", self.next_header() as u64);
        push_number_line(&mut text, "hop limit", self.hop_limit() as u64);
        let source = self.source_address().to_text();
        push_text_line(&mut text, "source address", source.as_str());
        let destination = self.destination_address().to_text();
        push_text_line(&mut text, "destination address", destination.as_str());
        text
    }
}

} // verus!
