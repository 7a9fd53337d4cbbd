//! 128-bit addresses as eight 16-bit groups, and their text form.

use crate::text::{decimal_text, push_decimal, push_short_hex, short_hex_text};
use vstd::prelude::*;

verus! {

/// A 128-bit address: eight groups of sixteen bits, the most significant
/// group first.
#[derive(Clone, Copy, Debug, PartialEq, Eq)]
pub struct V6Address {
    pub groups: [u16; 8],
}

impl View for V6Address {
    type V = Seq<nat>;

    /// The eight groups as numbers.
    open spec fn view(&self) -> Seq<nat> {
        Seq::new(8, |i: int| self.groups@[i] as nat)
    }
}

/// The number of groups that are zero in a row, from the group at `at` on.
pub open spec fn zero_run(groups: Seq<nat>, at: int) -> nat
    decreases groups.len() - at,
{
    if 0 <= at < groups.len() && groups[at] == 0 {
        1 + zero_run(groups, at + 1)
    } else {
        0
    }
}

/// Whether the text of `groups` leaves out the run of zero groups that
/// begins at `start`: it is a run of two groups or more, no run is longer,
/// and no run before it is as long.
pub open spec fn is_compressed_start(groups: Seq<nat>, start: int) -> bool {
    &&& 0 <= start < groups.len()
    &&& zero_run(groups, start) >= 2
    &&& forall|j: int| 0 <= j < start ==> zero_run(groups, j) < zero_run(groups, start)
    &&& forall|j: int| start <= j < groups.len() ==> zero_run(groups, j) <= zero_run(groups, start)
}

/// The groups in hexadecimal without leading zeros, with a colon between
/// one group and the next.
pub open spec fn joined_text(groups: Seq<nat>) -> Seq<char>
    decreases groups.len(),
{
    if groups.len() == 0 {
        Seq::empty()
    } else if groups.len() == 1 {
        short_hex_text(groups[0])
    } else {
        joined_text(groups.drop_last()) + seq![':'] + short_hex_text(groups.last())
    }
}

/// Whether `groups` is an address that stands for a 32-bit address: five
/// groups of zero, then one of `ffff`.
pub open spec fn is_mapped(groups: Seq<nat>) -> bool {
    &&& groups.len() == 8
    &&& groups[0] == 0
    &&& groups[1] == 0
    &&& groups[2] == 0
    &&& groups[3] == 0
    &&& groups[4] == 0
    &&& groups[5] == 0xffff
}

/// The four bytes of two groups in decimal, with a dot between one byte and
/// the next.
pub open spec fn dotted_text(upper: nat, lower: nat) -> Seq<char> {
    decimal_text(upper / 256) + seq!['.'] + decimal_text(upper % 256) + seq!['.'] + decimal_text(
        lower / 256,
    ) + seq!['.'] + decimal_text(lower % 256)
}

/// The canonical text of an address of eight groups.
///
/// An address that stands for a 32-bit address is written `::ffff:` and the
/// four bytes in decimal. Any other is written group by group in lower-case
/// hexadecimal without leading zeros; where two or more groups in a row are
/// zero, the longest such run, and of several the first, is left out, and
/// `::` stands in its place.
pub open spec fn canonical_text(groups: Seq<nat>) -> Seq<char> {
    if is_mapped(groups) {
        seq![':', ':', 'f', 'f', 'f', 'f', ':'] + dotted_text(groups[6], groups[7])
    } else if exists|start: int| is_compressed_start(groups, start) {
        let start = choose|start: int| is_compressed_start(groups, start);
        joined_text(groups.subrange(0, start)) + seq![':', ':'] + joined_text(
            groups.subrange(start + zero_run(groups, start), groups.len() as int),
        )
    } else {
        joined_text(groups)
    }
}

/// A run of zero groups ends with the groups.
pub proof fn lemma_zero_run_bound(groups: Seq<nat>, at: int)
    requires
        0 <= at <= groups.len(),
    ensures
        zero_run(groups, at) <= groups.len() - at,
    decreases groups.len() - at,
{
    if at < groups.len() && groups[at] == 0 {
        lemma_zero_run_bound(groups, at + 1);
    }
}

/// At most one run of zero groups is left out.
pub proof fn lemma_compressed_start_is_unique(groups: Seq<nat>, a: int, b: int)
    requires
        is_compressed_start(groups, a),
        is_compressed_start(groups, b),
    ensures
        a == b,
{
}

impl V6Address {
    /// Appends to `out` the groups from `from` up to, not including, `to`,
    /// with a colon between one group and the next.
    fn push_joined(&self, out: &mut String, from: usize, to: usize)
        requires
            from <= to <= 8,
        ensures
            final(out)@ == old(out)@ + joined_text(self@.subrange(from as int, to as int)),
    {
        let ghost before = out@;
        let mut at: usize = from;
        while at < to
            invariant
                from <= at <= to <= 8,
                out@ == before + joined_text(self@.subrange(from as int, at as int)),
            decreases to - at,
        {
            if at > from {
                out.append(":");
            }
            push_short_hex(out, self.groups[at]);
            proof {
                let shorter = self@.subrange(from as int, at as int);
                let longer = self@.subrange(from as int, at + 1);
                assert(longer.drop_last() =~= shorter);
                assert(":"@ =~= seq![':']) by {
                    reveal_strlit(":");
                }
            }
            at = at + 1;
        }
    }

    /// The canonical text of the address.
    pub fn to_text(&self) -> (text: String)
        ensures
            text@ == canonical_text(self@),
    {
        let mut text = String::new();
        if self.groups[0] == 0 && self.groups[1] == 0 && self.groups[2] == 0 && self.groups[3] == 0
            && self.groups[4] == 0 && self.groups[5] == 0xffff {
            proof {
                reveal_strlit("::ffff:");
                reveal_strlit(".");
            }
            text.append("::ffff:");
            push_decimal(&mut text, (self.groups[6] / 256) as u64);
            text.append(".");
            push_decimal(&mut text, (self.groups[6] % 256) as u64);
            text.append(".");
            push_decimal(&mut text, (self.groups[7] / 256) as u64);
            text.append(".");
            push_decimal(&mut text, (self.groups[7] % 256) as u64);
            return text;
        }
        let runs = self.zero_runs();
        let mut best: usize = 0;
        let mut at: usize = 1;
        while at < 8
            invariant
                best < at <= 8,
                forall|j: int| 0 <= j < 8 ==> runs@[j] == #[trigger] zero_run(self@, j),
                forall|j: int| 0 <= j < best ==> runs@[j] < runs@[best as int],
                forall|j: int| best <= j < at ==> runs@[j] <= runs@[best as int],
            decreases 8 - at,
        {
            if runs[at] > runs[best] {
                best = at;
            }
            at = at + 1;
        }
        let length: usize = runs[best] as usize;
        proof {
            lemma_zero_run_bound(self@, best as int);
        }
        if length >= 2 {
            proof {
                assert(is_compressed_start(self@, best as int));
                lemma_compressed_start_is_unique(
                    self@,
                    best as int,
                    choose|start: int| is_compressed_start(self@, start),
                );
                reveal_strlit("::");
            }
            self.push_joined(&mut text, 0, best);
            text.append("::");
            self.push_joined(&mut text, best + length, 8);
        } else {
            proof {
                assert forall|start: int| !is_compressed_start(self@, start) by {}
                assert(self@.subrange(0, 8) =~= self@);
            }
            self.push_joined(&mut text, 0, 8);
        }
        text
    }

    /// For each place, the number of groups that are zero in a row from
    /// that place on.
    fn zero_runs(&self) -> (runs: [u8; 8])
        ensures
            forall|j: int| 0 <= j < 8 ==> runs@[j] == #[trigger] zero_run(self@, j),
    {
        let mut runs: [u8; 8] = [0u8; 8];
        let mut at: usize = 8;
        while at > 0
            invariant
                at <= 8,
                forall|j: int| at <= j < 8 ==> runs@[j] == #[trigger] zero_run(self@, j),
            decreases at,
        {
            at = at - 1;
            proof {
                lemma_zero_run_bound(self@, at + 1);
            }
            if self.groups[at] == 0 {
                let after: u8 = if at < 7 {
                    runs[at + 1]
                } else {
                    0
                };
                runs[at] = after + 1;
            } else {
                runs[at] = 0;
            }
        }
        runs
    }
}

} // verus!
