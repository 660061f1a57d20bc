//! A rule: a block of commands with a repeat count, pulled one command at a
//! time.

use crate::command::Command;
use crate::nibbles::{half_bytes, nibble_at, packed_len};
use vstd::prelude::*;
use vstd::slice::slice_subrange;

verus! {

/// A rule as a mathematical value.
pub struct RuleView {
    /// The commands of one pass, in decode order.
    pub body: Seq<Command>,
    /// How many passes through `body` the rule makes.
    pub cycles: nat,
    /// How many commands have been pulled so far.
    pub pc: nat,
}

impl RuleView {
    /// Length of the whole run: `cycles` passes through `body`.
    pub open spec fn total(self) -> nat {
        self.body.len() * self.cycles
    }

    /// What holds of every rule that was decoded from bytes: the command
    /// count and the repeat count each fit one byte, every command has a
    /// payload of the opcode table, and the position never passes the end of
    /// the run.
    pub open spec fn wf(self) -> bool {
        &&& self.body.len() <= u8::MAX
        &&& self.cycles <= u8::MAX
        &&& self.pc <= self.total()
        &&& forall|i: int| 0 <= i < self.body.len() ==> (#[trigger] self.body[i]).is_canonical()
    }

    /// The run is over: nothing is left to pull.
    pub open spec fn exhausted(self) -> bool {
        self.pc >= self.total()
    }

    /// The command at position `k` of the run: round-robin through `body`.
    pub open spec fn command_at(self, k: int) -> Command
        recommends
            0 <= k < self.total(),
    {
        self.body[k % (self.body.len() as int)]
    }

    /// The whole run, from its first command, whatever `pc` is.
    pub open spec fn commands(self) -> Seq<Command> {
        Seq::new(self.total(), |k: int| self.command_at(k))
    }

    /// The part of the run that is still to come.
    pub open spec fn remaining(self) -> Seq<Command> {
        self.commands().skip(self.pc as int)
    }

    /// One pull: the command at `pc` and the rule one step on, or `None`
    /// and the rule as it is once the run is over.
    pub open spec fn next(self) -> (Option<Command>, RuleView) {
        if self.exhausted() {
            (None, self)
        } else {
            (Some(self.command_at(self.pc as int)), RuleView { pc: self.pc + 1, ..self })
        }
    }

    /// The rule after `pulls` pulls.
    pub open spec fn after(self, pulls: nat) -> RuleView
        decreases pulls,
    {
        if pulls == 0 {
            self
        } else {
            self.after((pulls - 1) as nat).next().1
        }
    }

    /// Pulling moves `pc` forward by one per pull until the end of the run,
    /// and changes nothing else.
    pub proof fn lemma_after(self, pulls: nat)
        requires
            self.pc <= self.total(),
        ensures
            self.after(pulls).body == self.body,
            self.after(pulls).cycles == self.cycles,
            self.after(pulls).pc == if self.pc + pulls <= self.total() {
                self.pc + pulls
            } else {
                self.total()
            },
        decreases pulls,
    {
        if pulls > 0 {
            self.lemma_after((pulls - 1) as nat);
        }
    }

    /// A rule with `cycles = k` and a body of `n` commands yields exactly
    /// `k * n` commands, round-robin through the body, and then none: from a
    /// fresh rule, pull number `i` (counting from 0) gives `body[i % n]` for
    /// `i < k * n`, and nothing from `k * n` on.
    pub proof fn lemma_round_robin(self, i: nat)
        requires
            self.pc == 0,
        ensures
            i < self.cycles * self.body.len() ==> self.after(i).next().0 == Some(
                self.body[i as int % self.body.len() as int],
            ),
            i >= self.cycles * self.body.len() ==> self.after(i).next().0 is None,
            self.commands().len() == self.cycles * self.body.len(),
    {
        self.lemma_after(i);
        assert(self.cycles * self.body.len() == self.body.len() * self.cycles)
            by (nonlinear_arith);
    }

    /// A pull, with the position given as a pass and an index within the
    /// body: it hands out the command at that index. This states `next`
    /// without a remainder, for positions that are known.
    pub proof fn lemma_next_in_pass(self, pass: nat, index: nat)
        requires
            pass < self.cycles,
            index < self.body.len(),
            self.pc == pass * self.body.len() + index,
        ensures
            self.next() == (
                Some(self.body[index as int]),
                RuleView { pc: self.pc + 1, ..self },
            ),
    {
        let len = self.body.len() as int;
        assert(pass * len + index < len * self.cycles) by (nonlinear_arith)
            requires
                pass < self.cycles,
                0 <= index < len,
        ;
        vstd::arithmetic::div_mod::lemma_fundamental_div_mod_converse(
            self.pc as int,
            len,
            pass as int,
            index as int,
        );
    }

    /// A pull leaves the rule well formed.
    pub proof fn lemma_next_preserves_wf(self)
        requires
            self.wf(),
        ensures
            self.next().1.wf(),
    {
    }

    /// Every command that a well-formed rule hands out has a payload of the
    /// opcode table.
    pub proof fn lemma_next_is_canonical(self)
        requires
            self.wf(),
        ensures
            self.next().0 matches Some(command) ==> command.is_canonical(),
    {
        if !self.exhausted() {
            assert(self.body.len() > 0) by (nonlinear_arith)
                requires
                    self.pc < self.body.len() * self.cycles,
            ;
            let i = self.pc as int % self.body.len() as int;
            assert(self.body[i].is_canonical());
        }
    }

    /// Each pull hands out the head of what remains and leaves the rest.
    pub proof fn lemma_next_takes_first_remaining(self)
        requires
            self.wf(),
        ensures
            self.exhausted() <==> self.remaining().len() == 0,
            !self.exhausted() ==> self.next().0 == Some(self.remaining().first())
                && self.next().1.remaining() == self.remaining().drop_first(),
            self.exhausted() ==> self.next() == (None::<Command>, self),
    {
        if !self.exhausted() {
            let after = self.next().1;
            assert(after.commands() == self.commands());
            assert(after.remaining() =~= self.remaining().drop_first());
        }
    }
}

/// A decoded block of commands with its repeat count and read position.
#[derive(Debug, PartialEq)]
pub struct Rule {
    cycles: usize,
    body: Vec<Command>,
    pc: usize,
}

impl View for Rule {
    type V = RuleView;

    closed spec fn view(&self) -> RuleView {
        RuleView { body: self.body@, cycles: self.cycles as nat, pc: self.pc as nat }
    }
}

impl Clone for Rule {
    fn clone(&self) -> (rule: Rule)
        ensures
            rule@ == self@,
    {
        Rule { cycles: self.cycles, body: self.body.clone(), pc: self.pc }
    }
}

impl Rule {
    /// The rule is one that decoding can produce, at some point of its run.
    pub open spec fn wf(&self) -> bool {
        self@.wf()
    }

    /// Bytes that one encoded rule with `count` commands takes: a count
    /// byte, a cycles byte, and the packed opcodes.
    pub open spec fn frame_len(count: u8) -> nat {
        2 + packed_len(count as nat)
    }

    /// `source` starts with a whole encoded rule.
    pub open spec fn decodable(source: Seq<u8>) -> bool {
        &&& source.len() >= 2
        &&& Self::frame_len(source[0]) <= source.len()
    }

    /// What an encoded rule stands for: byte 0 is the command count, byte 1
    /// the repeat count, and the bytes after them hold the opcodes.
    pub open spec fn decode(source: Seq<u8>) -> RuleView
        recommends
            Self::decodable(source),
    {
        RuleView {
            body: Seq::new(
                source[0] as nat,
                |i: int| Command::decode(nibble_at(source.skip(2), i)),
            ),
            cycles: source[1] as nat,
            pc: 0,
        }
    }

    /// Decodes the rule that `source` starts with. Bytes after the rule's
    /// frame are not read.
    pub fn from(source: &[u8]) -> (rule: Rule)
        requires
            Self::decodable(source@),
        ensures
            rule@ == Self::decode(source@),
            rule.wf(),
    {
        let len: u8 = source[0];
        let cycles: usize = source[1] as usize;
        let opcodes = slice_subrange(source, 2, source.len());
        let mut commands_iter = half_bytes(opcodes, len as usize);
        let mut body: Vec<Command> = Vec::new();
        loop
            invariant
                commands_iter.wf(),
                commands_iter@.source == source@.skip(2),
                commands_iter@.count == len,
                commands_iter@.position == body@.len(),
                body@.len() <= len,
                body@ == Seq::new(
                    body@.len(),
                    |i: int| Command::decode(nibble_at(source@.skip(2), i)),
                ),
            ensures
                body@.len() == len,
            decreases len - body@.len(),
        {
            match commands_iter.next() {
                Some(opcode) => {
                    body.push(Command::from(opcode));
                },
                None => {
                    break ;
                },
            }
        }
        Rule { cycles, body, pc: 0 }
    }

    /// Pulls the next command of the run, or `None` once `cycles` passes
    /// through the body are done; after that the rule stays as it is.
    pub fn next(&mut self) -> (command: Option<Command>)
        requires
            old(self).wf(),
        ensures
            final(self).wf(),
            (command, final(self)@) == old(self)@.next(),
    {
        assert(self.body.len() * self.cycles <= u8::MAX * u8::MAX) by (nonlinear_arith)
            requires
                self.body.len() <= u8::MAX,
                self.cycles <= u8::MAX,
        ;
        if self.pc >= self.body.len() * self.cycles {
            return None;
        }
        assert(self.body.len() > 0) by (nonlinear_arith)
            requires
                self.pc < self.body.len() * self.cycles,
        ;
        let i: usize = self.pc % self.body.len();
        self.pc += 1;
        Some(self.body[i])
    }

    /// The command that the next pull will hand out, if any. The rule stays
    /// as it is.
    pub fn peek(&self) -> (command: Option<Command>)
        requires
            self.wf(),
        ensures
            command == self@.next().0,
    {
        assert(self.body.len() * self.cycles <= u8::MAX * u8::MAX) by (nonlinear_arith)
            requires
                self.body.len() <= u8::MAX,
                self.cycles <= u8::MAX,
        ;
        if self.pc >= self.body.len() * self.cycles {
            return None;
        }
        assert(self.body.len() > 0) by (nonlinear_arith)
            requires
                self.pc < self.body.len() * self.cycles,
        ;
        Some(self.body[self.pc % self.body.len()])
    }

    /// The repeat count.
    pub fn cycles(&self) -> (cycles: usize)
        ensures
            cycles == self@.cycles,
    {
        self.cycles
    }

    /// The commands of one pass.
    pub fn body(&self) -> (body: &[Command])
        ensures
            body@ == self@.body,
    {
        self.body.as_slice()
    }

    /// How many commands have been pulled.
    pub fn pc(&self) -> (pc: usize)
        ensures
            pc == self@.pc,
    {
        self.pc
    }
}

} // verus!
