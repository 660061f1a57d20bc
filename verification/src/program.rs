//! A program: the rules of one ROM, run in order, each through all of its
//! cycles, as one flat stream of commands.

use crate::command::Command;
use crate::rom::{decode_rules, ends_framing, rules, well_framed};
use crate::rule::{Rule, RuleView};
use vstd::prelude::*;

verus! {

/// A program as a mathematical value.
pub struct ProgramView {
    /// The rules, in ROM order.
    pub rules: Seq<RuleView>,
    /// Index of the rule that the next command is pulled from.
    pub rule_pc: nat,
}

impl ProgramView {
    /// The current rule is one of the rules or just past the last, and every
    /// rule is well formed.
    pub open spec fn wf(self) -> bool {
        &&& self.rule_pc <= self.rules.len()
        &&& forall|i: int| 0 <= i < self.rules.len() ==> (#[trigger] self.rules[i]).wf()
    }

    /// The program with the current rule left behind.
    pub open spec fn skip_rule(self) -> ProgramView {
        ProgramView { rule_pc: self.rule_pc + 1, ..self }
    }

    /// One pull. The current rule gives its next command; a rule that is
    /// exhausted is left behind and the one after it is asked, and so on.
    /// Past the last rule there is nothing to pull.
    pub open spec fn next(self) -> (Option<Command>, ProgramView)
        decreases self.rules.len() - self.rule_pc,
    {
        if self.rule_pc >= self.rules.len() {
            (None, self)
        } else {
            let (command, rule) = self.rules[self.rule_pc as int].next();
            if command is Some {
                (command, ProgramView { rules: self.rules.update(self.rule_pc as int, rule), ..self })
            } else {
                self.skip_rule().next()
            }
        }
    }

    /// Every command still to come, in the order in which it will be
    /// pulled: what is left of the current rule, then each later rule's
    /// remainder in turn.
    pub open spec fn remaining(self) -> Seq<Command>
        decreases self.rules.len() - self.rule_pc,
    {
        if self.rule_pc >= self.rules.len() {
            Seq::empty()
        } else {
            self.rules[self.rule_pc as int].remaining() + self.skip_rule().remaining()
        }
    }

    /// No command is left.
    pub open spec fn exhausted(self) -> bool {
        self.remaining().len() == 0
    }

    /// The commands to come depend only on the current rule and those after
    /// it.
    pub proof fn lemma_remaining_ignores_earlier_rules(self, other: ProgramView)
        requires
            self.rule_pc == other.rule_pc,
            self.rules.len() == other.rules.len(),
            forall|i: int| self.rule_pc <= i < self.rules.len() ==> self.rules[i] == other.rules[i],
        ensures
            self.remaining() == other.remaining(),
        decreases self.rules.len() - self.rule_pc,
    {
        if self.rule_pc < self.rules.len() {
            self.skip_rule().lemma_remaining_ignores_earlier_rules(other.skip_rule());
        }
    }

    /// Pulling is strictly sequential: each pull hands out the head of the
    /// stream of commands to come, and what is left is that stream without
    /// its head. Nothing is skipped or reordered, whatever the repeat counts.
    /// Once the stream is empty a pull gives `None` and leaves it empty.
    pub proof fn lemma_next_takes_first_remaining(self)
        requires
            self.wf(),
        ensures
            self.next().1.wf(),
            !self.exhausted() ==> self.next().0 == Some(self.remaining().first())
                && self.next().1.remaining() == self.remaining().drop_first(),
            self.exhausted() ==> self.next().0 is None && self.next().1.exhausted(),
        decreases self.rules.len() - self.rule_pc,
    {
        if self.rule_pc < self.rules.len() {
            let rule = self.rules[self.rule_pc as int];
            rule.lemma_next_takes_first_remaining();
            if rule.exhausted() {
                assert(self.remaining() =~= self.skip_rule().remaining());
                self.skip_rule().lemma_next_takes_first_remaining();
            } else {
                let after = self.next().1;
                rule.lemma_next_preserves_wf();
                after.skip_rule().lemma_remaining_ignores_earlier_rules(self.skip_rule());
                assert(after.remaining() =~= self.remaining().drop_first());
            }
        }
    }

    /// A pull changes no rule's commands or repeat count, and moves no
    /// position backwards; when it finds no command, no rule is touched at
    /// all and the current rule is the one past the last.
    pub proof fn lemma_next_keeps_rules(self)
        requires
            self.wf(),
        ensures
            self.next().1.rules.len() == self.rules.len(),
            self.next().1.rule_pc >= self.rule_pc,
            forall|i: int|
                0 <= i < self.rules.len() ==> {
                    &&& (#[trigger] self.next().1.rules[i]).body == self.rules[i].body
                    &&& self.next().1.rules[i].cycles == self.rules[i].cycles
                    &&& self.next().1.rules[i].pc >= self.rules[i].pc
                },
            self.next().0 is None ==> self.next().1 == (ProgramView {
                rule_pc: self.rules.len(),
                ..self
            }),
        decreases self.rules.len() - self.rule_pc,
    {
        if self.rule_pc < self.rules.len() {
            let rule = self.rules[self.rule_pc as int];
            if rule.next().0 is None {
                self.skip_rule().lemma_next_keeps_rules();
            }
        }
    }

    /// Every command that a well-formed program hands out has a payload of
    /// the opcode table.
    pub proof fn lemma_next_is_canonical(self)
        requires
            self.wf(),
        ensures
            self.next().0 matches Some(command) ==> command.is_canonical(),
        decreases self.rules.len() - self.rule_pc,
    {
        if self.rule_pc < self.rules.len() {
            let rule = self.rules[self.rule_pc as int];
            if rule.next().0 is None {
                self.skip_rule().lemma_next_is_canonical();
            } else {
                rule.lemma_next_is_canonical();
            }
        }
    }

    /// A program without rules has nothing to pull, and a pull leaves it as
    /// it is.
    pub proof fn lemma_no_rules_no_commands(self)
        requires
            self.rules.len() == 0,
            self.rule_pc == 0,
        ensures
            self.next() == (None::<Command>, self),
            self.exhausted(),
    {
    }
}

/// The decoded rules of a ROM and the index of the current one.
#[derive(Debug, PartialEq)]
pub struct Program {
    rules: Vec<Rule>,
    rule_pc: usize,
}

/// The rules of a vector as mathematical values.
pub open spec fn rule_views(rules: Seq<Rule>) -> Seq<RuleView> {
    Seq::new(rules.len(), |i: int| rules[i]@)
}

impl View for Program {
    type V = ProgramView;

    closed spec fn view(&self) -> ProgramView {
        ProgramView { rules: rule_views(self.rules@), rule_pc: self.rule_pc as nat }
    }
}

impl Clone for Program {
    fn clone(&self) -> (program: Program)
        ensures
            program@ == self@,
    {
        let program = Program { rules: self.rules.clone(), rule_pc: self.rule_pc };
        assert(program@.rules =~= self@.rules);
        program
    }
}

impl Program {
    /// The program is one that decoding can produce, at some point of its
    /// run.
    pub open spec fn wf(&self) -> bool {
        self@.wf()
    }

    /// What a ROM stands for: its rules in order, none of them started.
    pub open spec fn decode(rom: Seq<u8>) -> ProgramView
        recommends
            well_framed(rom),
    {
        ProgramView { rules: decode_rules(rom), rule_pc: 0 }
    }

    /// Decodes a ROM. Framing starts at the first byte and stops at a zero
    /// count byte or at the end of the bytes; an empty ROM gives the program
    /// without rules.
    pub fn from(source: &[u8]) -> (program: Program)
        requires
            well_framed(source@),
        ensures
            program@ == Self::decode(source@),
            program.wf(),
    {
        let mut rules_iter = rules(source);
        let mut decoded: Vec<Rule> = Vec::new();
        assert(rules_iter@.rest() =~= source@);
        assert(rule_views(decoded@) + decode_rules(source@) =~= decode_rules(source@));
        loop
            invariant
                rules_iter.wf(),
                rules_iter@.source == source@,
                well_framed(rules_iter@.rest()),
                forall|i: int| 0 <= i < decoded@.len() ==> (#[trigger] decoded@[i]).wf(),
                rule_views(decoded@) + decode_rules(rules_iter@.rest()) == decode_rules(source@),
            ensures
                forall|i: int| 0 <= i < decoded@.len() ==> (#[trigger] decoded@[i]).wf(),
                rule_views(decoded@) == decode_rules(source@),
            decreases source@.len() - rules_iter@.offset,
        {
            let ghost before = rules_iter@;
            let ghost views = rule_views(decoded@);
            match rules_iter.next() {
                Some(rule) => {
                    decoded.push(rule);
                    proof {
                        let step = Rule::frame_len(before.rest()[0]) as int;
                        assert(rules_iter@.rest() =~= before.rest().skip(step));
                        assert(rule_views(decoded@) =~= views + seq![rule@]);
                        assert(rule_views(decoded@) + decode_rules(rules_iter@.rest()) =~= views
                            + decode_rules(before.rest()));
                    }
                },
                None => {
                    assert(rule_views(decoded@) =~= views + decode_rules(before.rest()));
                    break ;
                },
            }
        }
        Program { rules: decoded, rule_pc: 0 }
    }

    /// A ROM that is empty, or that starts with a zero count byte, is well
    /// framed and stands for the program without rules.
    pub proof fn lemma_empty_rom_has_no_rules(rom: Seq<u8>)
        requires
            ends_framing(rom),
        ensures
            well_framed(rom),
            Self::decode(rom) == (ProgramView { rules: Seq::empty(), rule_pc: 0 }),
    {
    }

    /// Decoding is a function of the bytes alone: two programs decoded from
    /// the same ROM are the same, rule for rule and position for position.
    pub proof fn lemma_decoding_is_deterministic(rom: Seq<u8>, first: Program, second: Program)
        requires
            first@ == Self::decode(rom),
            second@ == Self::decode(rom),
        ensures
            first@ == second@,
    {
    }

    /// Pulls the next command of the program, or `None` once every rule has
    /// run through all of its cycles.
    pub fn next(&mut self) -> (command: Option<Command>)
        requires
            old(self).wf(),
        ensures
            final(self).wf(),
            (command, final(self)@) == old(self)@.next(),
    {
        loop
            invariant
                self.wf(),
                self@.next() == old(self)@.next(),
            decreases self.rules.len() - self.rule_pc,
        {
            if self.rule_pc >= self.rules.len() {
                return None;
            }
            let ghost before = self@;
            assert(self.rules@[self.rule_pc as int]@ == before.rules[self.rule_pc as int]);
            let command = self.rules[self.rule_pc].next();
            if command.is_some() {
                assert(self@.rules =~= before.rules.update(
                    self.rule_pc as int,
                    before.rules[self.rule_pc as int].next().1,
                ));
                return command;
            }
            assert(self@.rules =~= before.rules);
            self.rule_pc += 1;
        }
    }

    /// The command that the next pull will hand out, if any. The program
    /// stays as it is.
    pub fn peek(&self) -> (command: Option<Command>)
        requires
            self.wf(),
        ensures
            command == self@.next().0,
    {
        let mut i: usize = self.rule_pc;
        while i < self.rules.len()
            invariant
                self.wf(),
                self.rule_pc <= i <= self.rules.len(),
                (ProgramView { rule_pc: i as nat, ..self@ }).next().0 == self@.next().0,
            decreases self.rules.len() - i,
        {
            let command = self.rules[i].peek();
            if command.is_some() {
                return command;
            }
            i += 1;
        }
        None
    }

    /// The rules, in ROM order.
    pub fn rules(&self) -> (rules: &[Rule])
        ensures
            rule_views(rules@) == self@.rules,
    {
        self.rules.as_slice()
    }

    /// Index of the current rule.
    pub fn rule_pc(&self) -> (rule_pc: usize)
        ensures
            rule_pc == self@.rule_pc,
    {
        self.rule_pc
    }
}

impl Default for Program {
    /// The program without rules.
    fn default() -> (program: Program)
        ensures
            program@ == (ProgramView { rules: Seq::empty(), rule_pc: 0 }),
            program.wf(),
    {
        let program = Program { rules: Vec::new(), rule_pc: 0 };
        assert(program@.rules =~= Seq::empty());
        program
    }
}

} // verus!
