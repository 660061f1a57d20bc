//! The machine: a cursor, a pixel buffer and a few drawing flags, driven by
//! the loaded program one command per tick.

use crate::command::Command;
use crate::program::{Program, ProgramView};
use crate::rom::well_framed;
use vstd::prelude::*;

verus! {

/// Width of the pixel buffer.
pub const WIDTH: usize = 272;

/// Height of the pixel buffer.
pub const HEIGHT: usize = 192;

/// Number of cells of the pixel buffer, stored row by row.
pub const PIXELS: usize = WIDTH * HEIGHT;

/// What can go wrong while the machine runs.
#[derive(Debug, PartialEq, Eq, Clone, Copy, Structural)]
pub enum CPUError {
    /// The program cannot be run. No ROM that can be loaded makes a tick
    /// report it.
    InvalidProgram,
}

impl CPUError {
    /// The text that describes the error.
    pub fn message(&self) -> (text: String)
        ensures
            text@ == "Invalid program"@,
    {
        match self {
            CPUError::InvalidProgram => "Invalid program".to_owned(),
        }
    }
}

/// The machine as a mathematical value. The cursor is a pair of unbounded
/// integers: it may leave the buffer in any direction.
pub struct CpuView {
    /// The drawing position, `(x, y)`.
    pub cursor: (int, int),
    /// The buffer, row by row: cell `(x, y)` is `pixels[y * WIDTH + x]`.
    pub pixels: Seq<bool>,
    /// The sign by which each axis of a move is multiplied.
    pub flip: (int, int),
    /// While set, the two components of a move are swapped.
    pub is_mirror: bool,
    /// While set, moves do not paint.
    pub is_draw_disabled: bool,
    /// The value that a painted cell takes.
    pub color: bool,
    /// The loaded program and how far it has run.
    pub program: ProgramView,
}

impl CpuView {
    /// The buffer has its fixed size, each flip sign is +1 or -1, and the
    /// program is well formed.
    pub open spec fn wf(self) -> bool {
        &&& self.pixels.len() == PIXELS
        &&& (self.flip.0 == 1 || self.flip.0 == -1)
        &&& (self.flip.1 == 1 || self.flip.1 == -1)
        &&& self.program.wf()
    }

    /// A machine as it is made: cursor at the centre, buffer clear, no flip,
    /// no mirror, drawing on in the foreground color, no program.
    pub open spec fn initial() -> CpuView {
        CpuView {
            cursor: (WIDTH as int / 2, HEIGHT as int / 2),
            pixels: Seq::new(PIXELS as nat, |i: int| false),
            flip: (1, 1),
            is_mirror: false,
            is_draw_disabled: false,
            color: true,
            program: ProgramView { rules: Seq::empty(), rule_pc: 0 },
        }
    }

    /// Whether a position is a cell of the buffer.
    pub open spec fn in_bounds(at: (int, int)) -> bool {
        0 <= at.0 < WIDTH && 0 <= at.1 < HEIGHT
    }

    /// The index of cell `at` in the buffer.
    pub open spec fn pixel_index(at: (int, int)) -> int
        recommends
            Self::in_bounds(at),
    {
        at.1 * WIDTH + at.0
    }

    /// The value of cell `at`.
    pub open spec fn pixel(self, at: (int, int)) -> bool
        recommends
            Self::in_bounds(at),
    {
        self.pixels[Self::pixel_index(at)]
    }

    /// Both coordinates of the cursor fit a machine word.
    pub open spec fn cursor_fits(self) -> bool {
        &&& isize::MIN <= self.cursor.0 <= isize::MAX
        &&& isize::MIN <= self.cursor.1 <= isize::MAX
    }

    /// `value` multiplied by `sign`. The products with the two signs that
    /// the machine uses are written out, so that none is left to the solver.
    pub open spec fn signed(value: int, sign: int) -> int {
        if sign == 1 {
            value
        } else if sign == -1 {
            -value
        } else {
            value * sign
        }
    }

    /// The displacement that a move by `(dx, dy)` makes in this state: the
    /// two components swapped while mirror is on, then each multiplied by
    /// its axis's flip sign.
    pub open spec fn step(self, dx: int, dy: int) -> (int, int) {
        let (x, y) = if self.is_mirror {
            (dy, dx)
        } else {
            (dx, dy)
        };
        (Self::signed(x, self.flip.0), Self::signed(y, self.flip.1))
    }

    /// `signed` is the product.
    pub proof fn lemma_signed_is_product(value: int, sign: int)
        ensures
            Self::signed(value, sign) == value * sign,
    {
        assert(sign == 1 ==> value * sign == value) by (nonlinear_arith);
        assert(sign == -1 ==> value * sign == -value) by (nonlinear_arith);
    }

    /// Paints the cell under the cursor with the active color. A cursor
    /// outside the buffer paints nothing.
    pub open spec fn draw_cursor(self) -> CpuView {
        if Self::in_bounds(self.cursor) {
            CpuView { pixels: self.pixels.update(Self::pixel_index(self.cursor), self.color), ..self }
        } else {
            self
        }
    }

    /// Moves the cursor by the step for `(dx, dy)` and, unless drawing is
    /// off, paints the cell that it arrives at.
    pub open spec fn move_cursor(self, dx: int, dy: int) -> CpuView {
        let (sx, sy) = self.step(dx, dy);
        let moved = CpuView { cursor: (self.cursor.0 + sx, self.cursor.1 + sy), ..self };
        if self.is_draw_disabled {
            moved
        } else {
            moved.draw_cursor()
        }
    }

    /// Negates the flip sign of each axis whose flag is not zero.
    pub open spec fn flip_axes(self, flip_x: u8, flip_y: u8) -> CpuView {
        CpuView {
            flip: (
                if flip_x > 0 {
                    -self.flip.0
                } else {
                    self.flip.0
                },
                if flip_y > 0 {
                    -self.flip.1
                } else {
                    self.flip.1
                },
            ),
            ..self
        }
    }

    /// The effect of one command.
    pub open spec fn exec(self, command: Command) -> CpuView {
        match command {
            Command::Move(dx, dy) => self.move_cursor(dx as int, dy as int),
            Command::Flip(flip_x, flip_y) => self.flip_axes(flip_x, flip_y),
            Command::Mirror => CpuView { is_mirror: !self.is_mirror, ..self },
            Command::Draw => CpuView { is_draw_disabled: !self.is_draw_disabled, ..self },
            Command::Color => CpuView { color: !self.color, ..self },
            Command::Scale(_) => self,
            Command::PushPop => self,
        }
    }

    /// One tick: pull a command from the program and apply it. The flag is
    /// `true` when the program had no command left; then nothing but the
    /// program's own position can have changed.
    pub open spec fn tick(self) -> (bool, CpuView) {
        let (command, program) = self.program.next();
        let pulled = CpuView { program, ..self };
        match command {
            Some(command) => (false, pulled.exec(command)),
            None => (true, pulled),
        }
    }

    /// The machine after `ticks` ticks.
    pub open spec fn after_ticks(self, ticks: nat) -> CpuView
        decreases ticks,
    {
        if ticks == 0 {
            self
        } else {
            self.after_ticks((ticks - 1) as nat).tick().1
        }
    }

    /// The machine after the commands of `commands`, applied in order. The
    /// program is not touched.
    pub open spec fn run(self, commands: Seq<Command>) -> CpuView
        decreases commands.len(),
    {
        if commands.len() == 0 {
            self
        } else {
            self.run(commands.drop_last()).exec(commands.last())
        }
    }

    /// What the moves among `commands` add up to, each move counted with the
    /// step that it has in the state in which it is applied.
    pub open spec fn displacement(self, commands: Seq<Command>) -> (int, int)
        decreases commands.len(),
    {
        if commands.len() == 0 {
            (0, 0)
        } else {
            let sum = self.displacement(commands.drop_last());
            match commands.last() {
                Command::Move(dx, dy) => {
                    let step = self.run(commands.drop_last()).step(dx as int, dy as int);
                    (sum.0 + step.0, sum.1 + step.1)
                },
                _ => sum,
            }
        }
    }

    /// A run of commands moves the cursor by the vector sum of the steps of
    /// its moves, where each step is taken with the flip and mirror state of
    /// the moment at which the move is applied. Commands other than moves
    /// never move the cursor.
    pub proof fn lemma_cursor_moves_by_displacement(self, commands: Seq<Command>)
        ensures
            self.run(commands).cursor == (
                self.cursor.0 + self.displacement(commands).0,
                self.cursor.1 + self.displacement(commands).1,
            ),
        decreases commands.len(),
    {
        if commands.len() > 0 {
            self.lemma_cursor_moves_by_displacement(commands.drop_last());
        }
    }

    /// A command neither reads nor changes the program.
    pub proof fn lemma_exec_ignores_program(self, command: Command, program: ProgramView)
        ensures
            (CpuView { program, ..self }).exec(command) == (CpuView {
                program,
                ..self.exec(command)
            }),
    {
    }

    /// Ticking runs the program's commands in stream order: while commands
    /// are left, `ticks` ticks leave the machine as the first `ticks`
    /// commands to come leave it, and leave the rest of the stream to come.
    pub proof fn lemma_ticks_run_the_program(self, ticks: nat)
        requires
            self.wf(),
            ticks <= self.program.remaining().len(),
        ensures
            self.after_ticks(ticks).wf(),
            self.after_ticks(ticks) == (CpuView {
                program: self.after_ticks(ticks).program,
                ..self.run(self.program.remaining().take(ticks as int))
            }),
            self.after_ticks(ticks).program.remaining() == self.program.remaining().skip(
                ticks as int,
            ),
            self.after_ticks(ticks).tick().0 <==> ticks == self.program.remaining().len(),
        decreases ticks,
    {
        let stream = self.program.remaining();
        if ticks == 0 {
            assert(stream.take(0) =~= Seq::<Command>::empty());
            assert(stream.skip(0) =~= stream);
        } else {
            let earlier = self.after_ticks((ticks - 1) as nat);
            self.lemma_ticks_run_the_program((ticks - 1) as nat);
            earlier.lemma_tick_applies_first_remaining();
            earlier.lemma_tick_preserves_wf();
            let ran = self.run(stream.take(ticks - 1));
            let command = stream[ticks - 1];
            assert(earlier.program.remaining().first() == command);
            assert(stream.take(ticks as int).drop_last() =~= stream.take(ticks - 1));
            assert(stream.take(ticks as int).last() == command);
            ran.lemma_exec_ignores_program(command, earlier.program.next().1);
            assert(stream.skip(ticks - 1).drop_first() =~= stream.skip(ticks as int));
        }
        self.after_ticks(ticks).lemma_tick_applies_first_remaining();
    }

    /// A command leaves a well-formed machine well formed.
    pub proof fn lemma_exec_preserves_wf(self, command: Command)
        requires
            self.wf(),
        ensures
            self.exec(command).wf(),
    {
    }

    /// A tick leaves a well-formed machine well formed.
    pub proof fn lemma_tick_preserves_wf(self)
        requires
            self.wf(),
        ensures
            self.tick().1.wf(),
    {
        self.program.lemma_next_takes_first_remaining();
        let (command, program) = self.program.next();
        if let Some(command) = command {
            (CpuView { program, ..self }).lemma_exec_preserves_wf(command);
        }
    }

    /// A tick moves the cursor by at most one cell along each axis. So a
    /// cursor that has a cell of room on every side within the machine word
    /// still fits after the tick.
    pub proof fn lemma_tick_moves_one_cell_at_most(self)
        requires
            self.wf(),
        ensures
            self.cursor.0 - 1 <= self.tick().1.cursor.0 <= self.cursor.0 + 1,
            self.cursor.1 - 1 <= self.tick().1.cursor.1 <= self.cursor.1 + 1,
            isize::MIN < self.cursor.0 < isize::MAX && isize::MIN < self.cursor.1 < isize::MAX
                ==> self.tick().1.cursor_fits(),
    {
        self.program.lemma_next_is_canonical();
    }

    /// A flip changes neither the cursor nor the buffer, so the moves made
    /// before it stand as they were. Of every move after it, the component
    /// along each flipped axis is inverted and the other is left alone. With
    /// flags `(1, 0)`: the horizontal component of the next move is
    /// inverted, the vertical one is not.
    pub proof fn lemma_flip_inverts_later_moves(self, flip_x: u8, flip_y: u8, dx: i8, dy: i8)
        ensures
            ({
                let flipped = self.exec(Command::Flip(flip_x, flip_y));
                let (sx, sy) = self.step(dx as int, dy as int);
                let fx = if flip_x > 0 {
                    -sx
                } else {
                    sx
                };
                let fy = if flip_y > 0 {
                    -sy
                } else {
                    sy
                };
                &&& flipped.cursor == self.cursor
                &&& flipped.pixels == self.pixels
                &&& flipped.step(dx as int, dy as int) == (fx, fy)
                &&& flipped.exec(Command::Move(dx, dy)).cursor == (
                    self.cursor.0 + fx,
                    self.cursor.1 + fy,
                )
            }),
    {
        let (x, y) = if self.is_mirror {
            (dy as int, dx as int)
        } else {
            (dx as int, dy as int)
        };
        assert(x * (-self.flip.0) == -(x * self.flip.0)) by (nonlinear_arith);
        assert(y * (-self.flip.1) == -(y * self.flip.1)) by (nonlinear_arith);
        Self::lemma_signed_is_product(x, self.flip.0);
        Self::lemma_signed_is_product(x, -self.flip.0);
        Self::lemma_signed_is_product(y, self.flip.1);
        Self::lemma_signed_is_product(y, -self.flip.1);
    }

    /// Toggling draw twice gives back the very same machine, so everything
    /// that follows paints as if draw had never been toggled.
    pub proof fn lemma_draw_twice_is_identity(self)
        ensures
            self.exec(Command::Draw).exec(Command::Draw) == self,
    {
    }

    /// While draw is off a move still moves the cursor and leaves the buffer
    /// untouched.
    pub proof fn lemma_draw_off_moves_without_painting(self, dx: i8, dy: i8)
        requires
            self.is_draw_disabled,
        ensures
            self.exec(Command::Move(dx, dy)).pixels == self.pixels,
            self.exec(Command::Move(dx, dy)).cursor == (
                self.cursor.0 + self.step(dx as int, dy as int).0,
                self.cursor.1 + self.step(dx as int, dy as int).1,
            ),
    {
    }

    /// A move takes the cursor to its destination wherever that lies: the
    /// cursor is not clamped or wrapped. It writes at most the one cell
    /// that the cursor arrives at, and nothing at all when the destination
    /// is outside the buffer.
    pub proof fn lemma_move_paints_only_in_bounds(self, dx: i8, dy: i8)
        requires
            self.pixels.len() == PIXELS,
        ensures
            ({
                let moved = self.exec(Command::Move(dx, dy));
                let destination = (
                    self.cursor.0 + self.step(dx as int, dy as int).0,
                    self.cursor.1 + self.step(dx as int, dy as int).1,
                );
                &&& moved.cursor == destination
                &&& moved.pixels.len() == PIXELS
                &&& !Self::in_bounds(destination) ==> moved.pixels == self.pixels
                &&& Self::in_bounds(destination) && !self.is_draw_disabled ==> moved.pixel(
                    destination,
                ) == self.color
                &&& forall|i: int|
                    0 <= i < PIXELS && !(Self::in_bounds(destination) && i == Self::pixel_index(
                        destination,
                    )) ==> moved.pixels[i] == self.pixels[i]
            }),
    {
        let destination = (
            self.cursor.0 + self.step(dx as int, dy as int).0,
            self.cursor.1 + self.step(dx as int, dy as int).1,
        );
        if Self::in_bounds(destination) {
            Self::lemma_pixel_index_in_range(destination);
        }
    }

    /// Each cell of the buffer has an index of its own within the buffer.
    pub proof fn lemma_pixel_index_in_range(at: (int, int))
        requires
            Self::in_bounds(at),
        ensures
            0 <= Self::pixel_index(at) < PIXELS,
            Self::pixel_index(at) % (WIDTH as int) == at.0,
            Self::pixel_index(at) / (WIDTH as int) == at.1,
    {
        assert(at.1 * WIDTH + at.0 < WIDTH * HEIGHT && 0 <= at.1 * WIDTH) by (nonlinear_arith)
            requires
                0 <= at.0 < WIDTH,
                0 <= at.1 < HEIGHT,
        ;
        vstd::arithmetic::div_mod::lemma_fundamental_div_mod_converse(
            Self::pixel_index(at),
            WIDTH as int,
            at.1,
            at.0,
        );
    }

    /// With a program without rules the first tick reports "halted" and
    /// leaves the machine exactly as it was.
    pub proof fn lemma_no_rules_halts_at_once(self)
        requires
            self.program.rules.len() == 0,
            self.program.rule_pc == 0,
        ensures
            self.tick() == (true, self),
    {
        self.program.lemma_no_rules_no_commands();
    }

    /// A tick that reports "halted" changes nothing that can be seen:
    /// cursor, buffer and flags are as before, no rule was touched, and only
    /// the program's current rule has moved past the last rule. From then
    /// on every tick reports "halted" and changes nothing at all.
    pub proof fn lemma_halted_stays_halted(self)
        requires
            self.wf(),
            self.tick().0,
        ensures
            self.tick().1 == (CpuView {
                program: ProgramView { rule_pc: self.program.rules.len(), ..self.program },
                ..self
            }),
            self.tick().1.tick() == (true, self.tick().1),
    {
        self.program.lemma_next_keeps_rules();
    }

    /// The machine reports "halted" exactly when the program has no command
    /// left; otherwise the tick applies the first of the commands to come.
    pub proof fn lemma_tick_applies_first_remaining(self)
        requires
            self.wf(),
        ensures
            self.tick().0 <==> self.program.exhausted(),
            !self.program.exhausted() ==> self.tick().1 == (CpuView {
                program: self.program.next().1,
                ..self
            }).exec(self.program.remaining().first()),
            !self.program.exhausted() ==> self.tick().1.program.remaining()
                == self.program.remaining().drop_first(),
    {
        self.program.lemma_next_takes_first_remaining();
    }
}

/// The machine.
#[derive(Debug, PartialEq)]
pub struct CPU {
    cursor: (isize, isize),
    v_buffer: [bool; PIXELS],
    src: Program,
    flip: (isize, isize),
    is_mirror: bool,
    is_draw_disabled: bool,
    color: bool,
}

impl View for CPU {
    type V = CpuView;

    closed spec fn view(&self) -> CpuView {
        CpuView {
            cursor: (self.cursor.0 as int, self.cursor.1 as int),
            pixels: self.v_buffer@,
            flip: (self.flip.0 as int, self.flip.1 as int),
            is_mirror: self.is_mirror,
            is_draw_disabled: self.is_draw_disabled,
            color: self.color,
            program: self.src@,
        }
    }
}

impl Clone for CPU {
    fn clone(&self) -> (cpu: CPU)
        ensures
            cpu@ == self@,
    {
        CPU {
            cursor: self.cursor,
            v_buffer: self.v_buffer,
            src: self.src.clone(),
            flip: self.flip,
            is_mirror: self.is_mirror,
            is_draw_disabled: self.is_draw_disabled,
            color: self.color,
        }
    }
}

impl CPU {
    /// The state is one that the machine can be in.
    pub open spec fn wf(&self) -> bool {
        self@.wf()
    }

    /// A machine with the cursor at the centre of a clear buffer and no
    /// program loaded.
    pub fn new() -> (cpu: CPU)
        ensures
            cpu.wf(),
            cpu@ == CpuView::initial(),
    {
        let cpu = CPU {
            cursor: ((WIDTH / 2) as isize, (HEIGHT / 2) as isize),
            v_buffer: [false;PIXELS],
            src: Program::default(),
            flip: (1, 1),
            is_mirror: false,
            is_draw_disabled: false,
            color: true,
        };
        assert(cpu@.pixels =~= CpuView::initial().pixels);
        cpu
    }

    /// Replaces the loaded program by the one that `rom` encodes, at its
    /// start. Cursor, buffer and flags stay as they are.
    pub fn load_rom(&mut self, rom: &[u8])
        requires
            old(self).wf(),
            well_framed(rom@),
        ensures
            final(self).wf(),
            final(self)@ == (CpuView { program: Program::decode(rom@), ..old(self)@ }),
    {
        self.src = Program::from(rom);
    }

    /// Runs one command of the program. Returns `Ok(true)` when the program
    /// has none left ("halted"), `Ok(false)` otherwise; it never fails.
    ///
    /// The cursor has no bounds but those of the machine word: the tick must
    /// not take it past them, which `can_tick` tells.
    pub fn tick(&mut self) -> (halted: Result<bool, CPUError>)
        requires
            old(self).wf(),
            old(self)@.tick().1.cursor_fits(),
        ensures
            final(self).wf(),
            halted == Ok::<bool, CPUError>(old(self)@.tick().0),
            final(self)@ == old(self)@.tick().1,
    {
        match self.src.next() {
            Some(cmd) => {
                self.exec_cmd(&cmd)?;
                Ok(false)
            },
            None => Ok(true),
        }
    }

    /// Tells whether the next tick keeps the cursor within the machine
    /// word, that is, whether `tick` may be called.
    pub fn can_tick(&self) -> (ok: bool)
        requires
            self.wf(),
        ensures
            ok == self@.tick().1.cursor_fits(),
    {
        match self.src.peek() {
            Some(Command::Move(x, y)) => {
                let delta: (isize, isize) = if self.is_mirror {
                    (y as isize, x as isize)
                } else {
                    (x as isize, y as isize)
                };
                proof {
                    CpuView::lemma_signed_is_product(delta.0 as int, self.flip.0 as int);
                    CpuView::lemma_signed_is_product(delta.1 as int, self.flip.1 as int);
                }
                let step: (isize, isize) = (delta.0 * self.flip.0, delta.1 * self.flip.1);
                self.cursor.0.checked_add(step.0).is_some() && self.cursor.1.checked_add(
                    step.1,
                ).is_some()
            },
            _ => true,
        }
    }

    /// The cursor position, `(x, y)`.
    pub fn cursor(&self) -> (cursor: (isize, isize))
        ensures
            (cursor.0 as int, cursor.1 as int) == self@.cursor,
    {
        self.cursor
    }

    /// The pixel buffer, row by row.
    pub fn v_buffer(&self) -> (buffer: &[bool; PIXELS])
        ensures
            buffer@ == self@.pixels,
    {
        &self.v_buffer
    }

    /// The loaded program.
    pub fn program(&self) -> (program: &Program)
        ensures
            program@ == self@.program,
    {
        &self.src
    }

    /// The flip sign of each axis.
    pub fn flip(&self) -> (flip: (isize, isize))
        ensures
            (flip.0 as int, flip.1 as int) == self@.flip,
    {
        self.flip
    }

    /// Whether moves have their components swapped.
    pub fn is_mirror(&self) -> (is_mirror: bool)
        ensures
            is_mirror == self@.is_mirror,
    {
        self.is_mirror
    }

    /// Whether moves leave the buffer alone.
    pub fn is_draw_disabled(&self) -> (is_draw_disabled: bool)
        ensures
            is_draw_disabled == self@.is_draw_disabled,
    {
        self.is_draw_disabled
    }

    /// The active color.
    pub fn color(&self) -> (color: bool)
        ensures
            color == self@.color,
    {
        self.color
    }

    fn draw_cursor(&mut self)
        requires
            old(self).wf(),
        ensures
            final(self).wf(),
            final(self)@ == old(self)@.draw_cursor(),
    {
        let x: isize = self.cursor.0;
        let y: isize = self.cursor.1;

        if x >= WIDTH as isize || y >= HEIGHT as isize || x < 0 || y < 0 {
            return ;
        }
        let i: usize = (y as usize) * WIDTH + (x as usize);
        self.v_buffer[i] = self.color;
    }

    fn exec_cmd(&mut self, cmd: &Command) -> (shall_halt: Result<bool, CPUError>)
        requires
            old(self).wf(),
            old(self)@.exec(*cmd).cursor_fits(),
        ensures
            final(self).wf(),
            shall_halt == Ok::<bool, CPUError>(false),
            final(self)@ == old(self)@.exec(*cmd),
    {
        let shall_halt: bool = match *cmd {
            Command::Move(x, y) => self.exec_move_cursor(x as isize, y as isize)?,
            Command::Flip(x, y) => self.exec_flip(x, y)?,
            Command::Mirror => self.exec_mirror()?,
            Command::Draw => self.exec_draw()?,
            Command::Color => self.exec_color()?,
            Command::Scale(_) => false,
            Command::PushPop => false,
        };

        Ok(shall_halt)
    }

    fn exec_move_cursor(&mut self, x: isize, y: isize) -> (shall_halt: Result<bool, CPUError>)
        requires
            old(self).wf(),
            i8::MIN <= x <= i8::MAX,
            i8::MIN <= y <= i8::MAX,
            old(self)@.move_cursor(x as int, y as int).cursor_fits(),
        ensures
            final(self).wf(),
            shall_halt == Ok::<bool, CPUError>(false),
            final(self)@ == old(self)@.move_cursor(x as int, y as int),
    {
        let delta: (isize, isize) = if self.is_mirror {
            (y, x)
        } else {
            (x, y)
        };
        proof {
            CpuView::lemma_signed_is_product(delta.0 as int, self.flip.0 as int);
            CpuView::lemma_signed_is_product(delta.1 as int, self.flip.1 as int);
        }
        self.cursor.0 = self.cursor.0 + delta.0 * self.flip.0;
        self.cursor.1 = self.cursor.1 + delta.1 * self.flip.1;

        if !self.is_draw_disabled {
            self.draw_cursor();
        }
        Ok(false)
    }

    fn exec_flip(&mut self, flip_x: u8, flip_y: u8) -> (shall_halt: Result<bool, CPUError>)
        requires
            old(self).wf(),
        ensures
            final(self).wf(),
            shall_halt == Ok::<bool, CPUError>(false),
            final(self)@ == old(self)@.flip_axes(flip_x, flip_y),
    {
        if flip_x > 0 {
            self.flip.0 = -self.flip.0;
        }
        if flip_y > 0 {
            self.flip.1 = -self.flip.1;
        }
        Ok(false)
    }

    fn exec_mirror(&mut self) -> (shall_halt: Result<bool, CPUError>)
        requires
            old(self).wf(),
        ensures
            final(self).wf(),
            shall_halt == Ok::<bool, CPUError>(false),
            final(self)@ == (CpuView { is_mirror: !old(self)@.is_mirror, ..old(self)@ }),
    {
        self.is_mirror = !self.is_mirror;

        Ok(false)
    }

    fn exec_draw(&mut self) -> (shall_halt: Result<bool, CPUError>)
        requires
            old(self).wf(),
        ensures
            final(self).wf(),
            shall_halt == Ok::<bool, CPUError>(false),
            final(self)@ == (CpuView {
                is_draw_disabled: !old(self)@.is_draw_disabled,
                ..old(self)@
            }),
    {
        self.is_draw_disabled = !self.is_draw_disabled;
        Ok(false)
    }

    fn exec_color(&mut self) -> (shall_halt: Result<bool, CPUError>)
        requires
            old(self).wf(),
        ensures
            final(self).wf(),
            shall_halt == Ok::<bool, CPUError>(false),
            final(self)@ == (CpuView { color: !old(self)@.color, ..old(self)@ }),
    {
        self.color = !self.color;
        Ok(false)
    }
}

} // verus!
