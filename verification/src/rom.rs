//! ROM framing: a ROM is a run of encoded rules, ended by a zero count byte
//! or by the end of the bytes.
//!
//! ```text
//! ROM  := Rule*
//! Rule := count:u8 cycles:u8 opcode:u4[count]    (two opcodes per byte, high half first)
//! ```

use crate::nibbles::nibble_at;
use crate::rule::{Rule, RuleView};
use vstd::prelude::*;
use vstd::slice::{slice_subrange, slice_to_vec};

verus! {

/// No rule starts here: the bytes are over, or the count byte is zero.
pub open spec fn ends_framing(rom: Seq<u8>) -> bool {
    rom.len() == 0 || rom[0] == 0
}

/// Every rule that framing reaches lies wholly within the bytes. Bytes after
/// a zero count byte are never looked at.
pub open spec fn well_framed(rom: Seq<u8>) -> bool
    decreases rom.len(),
{
    if ends_framing(rom) {
        true
    } else {
        Rule::decodable(rom) && well_framed(rom.skip(Rule::frame_len(rom[0]) as int))
    }
}

/// The rules of a well-framed ROM, in order, each at the start of its run.
pub open spec fn decode_rules(rom: Seq<u8>) -> Seq<RuleView>
    decreases rom.len(),
{
    if ends_framing(rom) || !Rule::decodable(rom) {
        Seq::empty()
    } else {
        seq![Rule::decode(rom)] + decode_rules(rom.skip(Rule::frame_len(rom[0]) as int))
    }
}

/// A rule's meaning depends only on the bytes of its own frame.
pub proof fn lemma_decode_reads_only_its_frame(rom: Seq<u8>, frame: Seq<u8>)
    requires
        Rule::decodable(rom),
        frame == rom.take(Rule::frame_len(rom[0]) as int),
    ensures
        Rule::decodable(frame),
        Rule::decode(frame) == Rule::decode(rom),
{
    let count = rom[0] as nat;
    assert forall|i: int| 0 <= i < count implies nibble_at(frame.skip(2), i) == nibble_at(
        rom.skip(2),
        i,
    ) by {
        assert(i / 2 < (count + 1) / 2);
    }
    assert(Rule::decode(frame).body =~= Rule::decode(rom).body);
}

/// Every rule of a ROM is well formed: at most 255 commands and 255 cycles,
/// each command with a payload of the opcode table, and not yet started.
pub proof fn lemma_decoded_rules_are_wf(rom: Seq<u8>)
    ensures
        forall|i: int| 0 <= i < decode_rules(rom).len() ==> (#[trigger] decode_rules(rom)[i]).wf(),
        forall|i: int| 0 <= i < decode_rules(rom).len() ==> (#[trigger] decode_rules(rom)[i]).pc == 0,
    decreases rom.len(),
{
    if !ends_framing(rom) && Rule::decodable(rom) {
        let rest = decode_rules(rom.skip(Rule::frame_len(rom[0]) as int));
        lemma_decoded_rules_are_wf(rom.skip(Rule::frame_len(rom[0]) as int));
        assert(Rule::decode(rom).wf());
        assert forall|i: int| 0 <= i < decode_rules(rom).len() implies (#[trigger] decode_rules(
            rom,
        )[i]).wf() && decode_rules(rom)[i].pc == 0 by {
            if i > 0 {
                assert(decode_rules(rom)[i] == rest[i - 1]);
            }
        }
    }
}

/// Where a [`RulesChunker`] stands: the ROM and the offset of the next rule.
pub struct RulesCursor {
    pub source: Seq<u8>,
    pub offset: nat,
}

impl RulesCursor {
    /// The bytes from the offset on.
    pub open spec fn rest(self) -> Seq<u8> {
        self.source.skip(self.offset as int)
    }

    /// One step of framing: the rule at the offset and the cursor past its
    /// frame, or `None` and the cursor as it is where no rule starts.
    pub open spec fn next(self) -> (Option<RuleView>, RulesCursor)
        recommends
            ends_framing(self.rest()) || Rule::decodable(self.rest()),
    {
        if ends_framing(self.rest()) {
            (None, self)
        } else {
            (
                Some(Rule::decode(self.rest())),
                RulesCursor { offset: self.offset + Rule::frame_len(self.rest()[0]), ..self },
            )
        }
    }
}

/// Walks a ROM rule by rule.
pub struct RulesChunker {
    source: Vec<u8>,
    i: usize,
}

impl View for RulesChunker {
    type V = RulesCursor;

    closed spec fn view(&self) -> RulesCursor {
        RulesCursor { source: self.source@, offset: self.i as nat }
    }
}

impl RulesChunker {
    /// The offset is within the ROM or at its end.
    pub open spec fn wf(&self) -> bool {
        self@.offset <= self@.source.len()
    }

    /// Decodes the rule at the offset and steps past it, or returns `None`
    /// at a zero count byte or at the end of the ROM.
    pub fn next(&mut self) -> (rule: Option<Rule>)
        requires
            old(self).wf(),
            ends_framing(old(self)@.rest()) || Rule::decodable(old(self)@.rest()),
        ensures
            final(self).wf(),
            rule is Some <==> old(self)@.next().0 is Some,
            rule matches Some(r) ==> r.wf() && r@ == old(self)@.next().0->0,
            final(self)@ == old(self)@.next().1,
    {
        if self.i >= self.source.len() {
            return None;
        }
        let cmd_count: u8 = self.source[self.i];
        if cmd_count == 0 {
            return None;
        }
        let len: usize = (cmd_count as usize + 1) / 2 + 2;
        let frame = slice_subrange(self.source.as_slice(), self.i, self.i + len);
        proof {
            assert(frame@ =~= self@.rest().take(len as int));
            lemma_decode_reads_only_its_frame(self@.rest(), frame@);
        }
        let rule = Rule::from(frame);
        self.i += len;
        Some(rule)
    }
}

/// Starts framing at the first byte of `source`.
pub fn rules(source: &[u8]) -> (chunker: RulesChunker)
    ensures
        chunker.wf(),
        chunker@ == (RulesCursor { source: source@, offset: 0 }),
{
    RulesChunker { source: slice_to_vec(source), i: 0 }
}

/// Tells whether `source` is a well-framed ROM: whether every rule that
/// framing reaches has all of its bytes.
pub fn is_well_framed(source: &[u8]) -> (ok: bool)
    ensures
        ok == well_framed(source@),
{
    let mut i: usize = 0;
    assert(source@.skip(0) =~= source@);
    while i < source.len() && source[i] != 0
        invariant
            i <= source.len(),
            well_framed(source@) == well_framed(source@.skip(i as int)),
        decreases source.len() - i,
    {
        let len: usize = (source[i] as usize + 1) / 2 + 2;
        if len > source.len() - i {
            return false;
        }
        assert(source@.skip(i as int).skip(len as int) =~= source@.skip(i + len));
        i += len;
    }
    true
}

} // verus!
