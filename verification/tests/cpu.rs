use draw_vm::cpu::{CPUError, CPU, HEIGHT, PIXELS, WIDTH};
use draw_vm::program::Program;

fn any_cpu_with_rom(rom: &[u8]) -> CPU {
    let mut cpu = CPU::new();
    cpu.load_rom(rom);
    cpu
}

fn assert_v_buffer_at(cpu: &CPU, position: (usize, usize), value: bool) {
    let i = position.1 * WIDTH + position.0;
    assert_eq!(cpu.v_buffer()[i], value);
}

fn painted_cells(cpu: &CPU) -> usize {
    cpu.v_buffer().iter().filter(|cell| **cell).count()
}

#[test]
fn test_load_rom() {
    let rom: &[u8] = &[0x03, 0x01, 0x44, 0x50];
    let cpu = any_cpu_with_rom(rom);
    assert_eq!(*cpu.program(), Program::from(rom));
}

#[test]
fn test_exec_move_cursor() {
    let rom: &[u8] = &[0x02, 0x01, 0x50]; // move 1,-1
    let mut cpu = any_cpu_with_rom(rom);

    let res = cpu.tick();
    assert_eq!(res, Ok(false));
    assert_eq!(
        cpu.cursor(),
        ((WIDTH / 2 + 1) as isize, (HEIGHT / 2 - 1) as isize)
    );
    assert_v_buffer_at(&cpu, (WIDTH / 2 + 1, HEIGHT / 2 - 1), true);
}

#[test]
fn test_exec_flip() {
    let rom: &[u8] = &[0x02, 0x01, 0x35]; // flip 1,0; move 1,-1
    let mut cpu = any_cpu_with_rom(rom);

    let mut res = cpu.tick();
    assert_eq!(res, Ok(false));
    assert_eq!(cpu.flip(), (-1, 1));

    res = cpu.tick();
    assert_eq!(res, Ok(false));
    assert_eq!(
        cpu.cursor(),
        ((WIDTH / 2 - 1) as isize, (HEIGHT / 2 - 1) as isize)
    );
}

#[test]
fn test_exec_mirror() {
    let rom: &[u8] = &[0x02, 0x01, 0x75]; // mirror; move 1,-1
    let mut cpu = any_cpu_with_rom(rom);

    let mut res = cpu.tick();
    assert_eq!(res, Ok(false));
    assert_eq!(cpu.is_mirror(), true);

    res = cpu.tick();
    assert_eq!(res, Ok(false));
    assert_eq!(
        cpu.cursor(),
        ((WIDTH / 2 - 1) as isize, (HEIGHT / 2 + 1) as isize)
    );
}

#[test]
fn test_exec_draw() {
    let rom: &[u8] = &[0x02, 0x01, 0xd5]; // draw; move 1,-1
    let mut cpu = any_cpu_with_rom(rom);

    let mut res = cpu.tick();
    assert_eq!(res, Ok(false));
    assert_eq!(cpu.is_draw_disabled(), true);

    res = cpu.tick();
    assert_eq!(res, Ok(false));
    assert_v_buffer_at(&cpu, (WIDTH / 2 + 1, HEIGHT / 2 - 1), false);
}

#[test]
fn test_exec_color() {
    let rom: &[u8] = &[0x04, 0x01, 0x11, 0xc2]; // move 1,0; move 1,0; color; move -1,0
    let mut cpu = any_cpu_with_rom(rom);

    // move right x2
    let _ = cpu.tick();
    let _ = cpu.tick();
    assert_v_buffer_at(&cpu, (WIDTH / 2 + 1, HEIGHT / 2), true);
    assert_v_buffer_at(&cpu, (WIDTH / 2 + 2, HEIGHT / 2), true);

    // swap fg/bg colors
    let res = cpu.tick();
    assert_eq!(res, Ok(false));
    assert_eq!(cpu.color(), false);

    // move left
    let _ = cpu.tick();
    assert_v_buffer_at(&cpu, (WIDTH / 2 + 1, HEIGHT / 2), false);
}

#[test]
fn new_cpu_is_centred_clear_and_without_program() {
    let cpu = CPU::new();
    assert_eq!((WIDTH, HEIGHT, PIXELS), (272, 192, 52224));
    assert_eq!(cpu.cursor(), (136, 96));
    assert_eq!(cpu.v_buffer().len(), 52224);
    assert_eq!(painted_cells(&cpu), 0);
    assert_eq!(cpu.flip(), (1, 1));
    assert_eq!(cpu.is_mirror(), false);
    assert_eq!(cpu.is_draw_disabled(), false);
    assert_eq!(cpu.color(), true);
    assert_eq!(*cpu.program(), Program::default());
}

#[test]
fn move_paints_the_cell_it_arrives_at() {
    let mut cpu = any_cpu_with_rom(&[0x02, 0x01, 0x50]);
    assert_eq!(cpu.tick(), Ok(false));
    // the cell at (137, 95) is cell 95 * 272 + 137 of the buffer
    assert_eq!(cpu.v_buffer()[25977], true);
    assert_eq!(painted_cells(&cpu), 1);
    // the cell that the cursor started from is not painted
    assert_v_buffer_at(&cpu, (136, 96), false);
    // second opcode of the byte: 0 = PushPop, no effect
    assert_eq!(cpu.tick(), Ok(false));
    assert_eq!(cpu.cursor(), (137, 95));
    assert_eq!(painted_cells(&cpu), 1);
    assert_eq!(cpu.tick(), Ok(true));
}

#[test]
fn cursor_moves_by_the_sum_of_the_applied_steps() {
    // move 1,0; mirror; move 1,-1 (applied as -1,1); flip 0,1; move 1,1 (applied as 1, then -1)
    let mut cpu = any_cpu_with_rom(&[0x05, 0x01, 0x17, 0x5b, 0x90]);
    assert_eq!(cpu.tick(), Ok(false));
    assert_eq!(cpu.cursor(), (137, 96));
    assert_eq!(cpu.tick(), Ok(false));
    assert_eq!(cpu.tick(), Ok(false));
    assert_eq!(cpu.cursor(), (136, 97));
    assert_eq!(cpu.tick(), Ok(false));
    assert_eq!(cpu.flip(), (1, -1));
    assert_eq!(cpu.tick(), Ok(false));
    assert_eq!(cpu.cursor(), (137, 96));
    assert_eq!(cpu.tick(), Ok(true));
}

#[test]
fn flip_inverts_later_moves_and_leaves_earlier_ones() {
    // move 1,0; flip 1,0; move 1,0; flip 1,0; move 1,0
    let mut cpu = any_cpu_with_rom(&[0x05, 0x01, 0x13, 0x13, 0x10]);
    assert_eq!(cpu.tick(), Ok(false));
    assert_eq!(cpu.cursor(), (137, 96));
    assert_eq!(cpu.tick(), Ok(false));
    // the flip itself moves nothing and repaints nothing
    assert_eq!(cpu.cursor(), (137, 96));
    assert_eq!(painted_cells(&cpu), 1);
    assert_eq!(cpu.flip(), (-1, 1));
    assert_eq!(cpu.tick(), Ok(false));
    assert_eq!(cpu.cursor(), (136, 96));
    assert_eq!(cpu.tick(), Ok(false));
    assert_eq!(cpu.flip(), (1, 1));
    assert_eq!(cpu.tick(), Ok(false));
    assert_eq!(cpu.cursor(), (137, 96));
}

#[test]
fn flip_of_the_vertical_axis_leaves_the_horizontal_one() {
    // flip 0,1; move 1,-1
    let mut cpu = any_cpu_with_rom(&[0x02, 0x01, 0xb5]);
    assert_eq!(cpu.tick(), Ok(false));
    assert_eq!(cpu.flip(), (1, -1));
    assert_eq!(cpu.tick(), Ok(false));
    assert_eq!(cpu.cursor(), (137, 97));
}

#[test]
fn mirror_swaps_before_flip_is_applied() {
    // flip 1,0; mirror; move 0,1 -> swapped to (1,0), then x flipped: (-1, 0)
    let mut cpu = any_cpu_with_rom(&[0x03, 0x01, 0x37, 0x80]);
    assert_eq!(cpu.tick(), Ok(false));
    assert_eq!(cpu.tick(), Ok(false));
    assert_eq!(cpu.tick(), Ok(false));
    assert_eq!(cpu.cursor(), (135, 96));
    // mirror twice is off again
    let mut twice = any_cpu_with_rom(&[0x03, 0x01, 0x77, 0x80]);
    assert_eq!(twice.tick(), Ok(false));
    assert_eq!(twice.is_mirror(), true);
    assert_eq!(twice.tick(), Ok(false));
    assert_eq!(twice.is_mirror(), false);
    assert_eq!(twice.tick(), Ok(false));
    assert_eq!(twice.cursor(), (136, 97));
}

#[test]
fn draw_toggled_twice_paints_as_if_never_toggled() {
    // draw; draw; move 1,-1
    let mut toggled = any_cpu_with_rom(&[0x03, 0x01, 0xdd, 0x50]);
    assert_eq!(toggled.tick(), Ok(false));
    assert_eq!(toggled.is_draw_disabled(), true);
    assert_eq!(toggled.tick(), Ok(false));
    assert_eq!(toggled.is_draw_disabled(), false);
    assert_eq!(toggled.tick(), Ok(false));

    let mut plain = any_cpu_with_rom(&[0x01, 0x01, 0x50]);
    assert_eq!(plain.tick(), Ok(false));

    assert_eq!(toggled.cursor(), plain.cursor());
    assert_eq!(toggled.v_buffer(), plain.v_buffer());
    assert_v_buffer_at(&toggled, (137, 95), true);
}

#[test]
fn draw_off_moves_the_cursor_without_painting() {
    // draw; move 1,0 x2 (second rule, 2 cycles)
    let mut cpu = any_cpu_with_rom(&[0x01, 0x01, 0xd0, 0x01, 0x02, 0x10]);
    assert_eq!(cpu.tick(), Ok(false));
    assert_eq!(cpu.tick(), Ok(false));
    assert_eq!(cpu.tick(), Ok(false));
    assert_eq!(cpu.cursor(), (138, 96));
    assert_eq!(painted_cells(&cpu), 0);
    assert_eq!(cpu.tick(), Ok(true));
}

#[test]
fn color_off_clears_the_cells_it_passes() {
    // move 1,0; color; move 0,1; move -1,0; move 0,-1; move 1,0
    let mut cpu = any_cpu_with_rom(&[0x06, 0x01, 0x1c, 0x82, 0x41]);
    for _ in 0..6 {
        assert_eq!(cpu.tick(), Ok(false));
    }
    assert_eq!(cpu.cursor(), (137, 96));
    assert_eq!(cpu.color(), false);
    assert_eq!(painted_cells(&cpu), 0);
}

#[test]
fn scale_and_pushpop_change_nothing() {
    let mut cpu = any_cpu_with_rom(&[0x03, 0x01, 0xef, 0x00]);
    let before = cpu.clone();
    for _ in 0..3 {
        assert_eq!(cpu.tick(), Ok(false));
        assert_eq!(cpu.cursor(), before.cursor());
        assert_eq!(cpu.v_buffer(), before.v_buffer());
        assert_eq!(cpu.flip(), before.flip());
        assert_eq!(cpu.is_mirror(), before.is_mirror());
        assert_eq!(cpu.is_draw_disabled(), before.is_draw_disabled());
        assert_eq!(cpu.color(), before.color());
    }
    assert_eq!(cpu.tick(), Ok(true));
}

#[test]
fn program_without_rules_halts_at_once_and_changes_nothing() {
    let roms: [&[u8]; 3] = [&[], &[0x00], &[0x00, 0x01, 0x01, 0x10]];
    for rom in roms {
        let mut cpu = any_cpu_with_rom(rom);
        let before = cpu.clone();
        for _ in 0..3 {
            assert_eq!(cpu.tick(), Ok(true));
            assert_eq!(cpu, before);
        }
    }
    // a machine that was never given a ROM behaves the same
    let mut cpu = CPU::new();
    assert_eq!(cpu.tick(), Ok(true));
    assert_eq!(cpu, CPU::new());
}

#[test]
fn halted_machine_stays_halted() {
    let mut cpu = any_cpu_with_rom(&[0x01, 0x01, 0x10]);
    assert_eq!(cpu.tick(), Ok(false));
    let after_run = cpu.clone();
    assert_eq!(cpu.tick(), Ok(true));
    assert_eq!(cpu.cursor(), after_run.cursor());
    assert_eq!(cpu.v_buffer(), after_run.v_buffer());
    assert_eq!(cpu.program().rules(), after_run.program().rules());
    let halted = cpu.clone();
    assert_eq!(cpu.tick(), Ok(true));
    assert_eq!(cpu, halted);
}

#[test]
fn cursor_leaves_the_buffer_without_painting_or_wrapping() {
    // move -1,0 for 255 cycles: from x = 136 down to x = -119
    let mut cpu = any_cpu_with_rom(&[0x01, 0xff, 0x20]);
    for step in 1..=255isize {
        assert_eq!(cpu.tick(), Ok(false));
        assert_eq!(cpu.cursor(), (136 - step, 96));
    }
    assert_eq!(cpu.tick(), Ok(true));
    assert_eq!(cpu.cursor(), (-119, 96));
    // only the 136 cells from x = 135 down to x = 0 of row 96 were painted
    assert_eq!(painted_cells(&cpu), 136);
    for x in 0..136 {
        assert_v_buffer_at(&cpu, (x, 96), true);
    }
    // nothing wrapped round into the row above
    for x in 0..WIDTH {
        assert_v_buffer_at(&cpu, (x, 95), false);
    }
}

#[test]
fn cursor_leaves_the_buffer_on_the_far_sides_too() {
    // move 1,1 for 255 cycles: x passes 271 at step 136, y passes 191 at step 96
    let mut cpu = any_cpu_with_rom(&[0x01, 0xff, 0x90]);
    for _ in 0..255 {
        assert_eq!(cpu.tick(), Ok(false));
    }
    assert_eq!(cpu.cursor(), (391, 351));
    // cells (137, 97) .. (231, 191) are inside: 95 of them
    assert_eq!(painted_cells(&cpu), 95);
    assert_v_buffer_at(&cpu, (231, 191), true);
    assert_v_buffer_at(&cpu, (271, 191), false);
    assert_v_buffer_at(&cpu, (0, 0), false);

    // and back in: flip both axes, then the same 255 moves
    cpu.load_rom(&[0x02, 0x01, 0x3b, 0x01, 0xff, 0x90]);
    for _ in 0..257 {
        assert_eq!(cpu.tick(), Ok(false));
    }
    assert_eq!(cpu.cursor(), (136, 96));
    assert_v_buffer_at(&cpu, (136, 96), true);
    assert_eq!(painted_cells(&cpu), 96);
}

#[test]
fn load_rom_replaces_the_program_and_keeps_the_drawing_state() {
    // flip 1,0; mirror; draw; color; move 1,0 ...
    let mut cpu = any_cpu_with_rom(&[0x06, 0x01, 0x31, 0x7d, 0xc1]);
    for _ in 0..3 {
        assert_eq!(cpu.tick(), Ok(false));
    }
    let before = cpu.clone();
    cpu.load_rom(&[0x01, 0x02, 0x40]);
    assert_eq!(*cpu.program(), Program::from([0x01u8, 0x02, 0x40].as_slice()));
    assert_eq!(cpu.program().rule_pc(), 0);
    assert_eq!(cpu.cursor(), before.cursor());
    assert_eq!(cpu.v_buffer(), before.v_buffer());
    assert_eq!(cpu.flip(), (-1, 1));
    assert_eq!(cpu.is_mirror(), true);
    assert_eq!(cpu.is_draw_disabled(), false);
    assert_eq!(cpu.color(), true);
    // move 0,-1 with mirror on and x flipped: applied as (1, 0)
    assert_eq!(cpu.tick(), Ok(false));
    assert_eq!(cpu.cursor(), (before.cursor().0 + 1, before.cursor().1));
}

#[test]
fn tick_never_fails() {
    let mut cpu = any_cpu_with_rom(&[0x10, 0x03, 0x01, 0x23, 0x45, 0x67, 0x89, 0xab, 0xcd, 0xef]);
    let mut ticks = 0;
    loop {
        let halted = cpu.tick();
        assert_ne!(halted, Err(CPUError::InvalidProgram));
        if halted == Ok(true) {
            break;
        }
        ticks += 1;
    }
    assert_eq!(ticks, 48);
    assert_eq!(CPUError::InvalidProgram.message(), "Invalid program");
}

#[test]
fn can_tick_holds_wherever_a_rom_can_take_the_cursor() {
    let mut cpu = any_cpu_with_rom(&[0x03, 0xff, 0x6c, 0x70]);
    assert!(CPU::new().can_tick());
    loop {
        let before = cpu.clone();
        assert!(cpu.can_tick());
        assert_eq!(cpu, before);
        if cpu.tick() == Ok(true) {
            break;
        }
    }
    assert!(cpu.can_tick());
}
