use chip8::display::WIDTH;
use chip8::error::ProcessorError;
use chip8::processor::Processor;

#[test]
fn test_const_ops_setting() {
    let opcode = [0x6, 0x5, 0x6, 0x6];
    let x = usize::from(opcode[1]);
    let n = (opcode[2] << 4) + opcode[3];

    let mut processor = Processor::default();
    processor.v[x] = 0xFF;
    processor.const_ops(opcode).unwrap();

    assert_eq!(processor.v[x], n)
}

#[test]
fn test_const_ops_addition() {
    let opcode = [0x7, 0x5, 0x6, 0x6];
    let x = usize::from(opcode[1]);
    let n = (opcode[2] << 4) + opcode[3];
    let starting = 0x1;

    let mut processor = Processor::default();
    processor.v[x] = starting;
    processor.const_ops(opcode).unwrap();

    assert_eq!(processor.v[x], starting + n)
}

#[test]
fn test_const_ops_adition_saturation() {
    let opcode = [0x7, 0x5, 0xF, 0xF];
    let x = usize::from(opcode[1]);

    let mut processor = Processor::default();
    processor.v[x] = 0xFF;
    processor.const_ops(opcode).unwrap();

    assert_eq!(processor.v[x], 0xFF)
}

#[test]
fn test_misc_ops_subroutine_return() {
    let opcode = [0x0, 0x0, 0xE, 0xE];

    let mut processor = Processor::default();
    processor.stack = [0x255; 16];
    processor.sp = 0x2;
    processor.misc_ops(opcode).unwrap();

    assert_eq!(processor.sp, 0x1);
    assert_eq!(processor.pc, 0x255);
}

#[test]
#[should_panic]
fn test_non_implemented_opcode() {
    let opcode = [0x0, 0xE, 0xE, 0xE];

    let mut processor = Processor::default();
    processor.misc_ops(opcode).unwrap();
}

#[test]
fn test_control_flow_ops_jump() {
    let opcode = [0x1, 0xA, 0xB, 0xC];

    let mut processor = Processor::default();
    processor.control_flow_ops(opcode).unwrap();

    assert_eq!(processor.pc, 0xABC);
}

#[test]
fn test_control_flow_ops_jump_add() {
    let opcode = [0xB, 0xA, 0xB, 0xC];

    let mut processor = Processor::default();
    processor.v[0x0] = 0x1;
    processor.control_flow_ops(opcode).unwrap();

    assert_eq!(processor.pc, 0xABC + 0x1);
}

#[test]
fn test_control_flow_ops_subroutine_call() {
    let opcode = [0x2, 0xA, 0xB, 0xC];

    let mut processor = Processor::default();
    let starting_pos = processor.pc;
    processor.control_flow_ops(opcode).unwrap();

    assert_eq!(processor.pc, 0xABC);
    assert_eq!(processor.sp, 0x1);
    assert_eq!(processor.stack[0], starting_pos);
}

#[test]
fn test_subroutine() {
    let call_opcode = [0x2, 0xA, 0xB, 0xC];
    let return_opcode = [0x0, 0x0, 0xE, 0xE];

    let mut processor = Processor::default();
    let starting_pos = processor.pc;
    processor.control_flow_ops(call_opcode).unwrap();
    processor.misc_ops(return_opcode).unwrap();

    assert_eq!(processor.pc, starting_pos);
    assert_eq!(processor.sp, 0);
}

fn machine_with(rom: &[u8]) -> Processor {
    let mut processor = Processor::default();
    processor.load_rom(rom);
    processor
}

#[test]
fn unimplemented_misc_word_is_reported() {
    let mut processor = Processor::default();
    let result = processor.misc_ops([0x0, 0xE, 0xE, 0xE]);
    assert_eq!(result, Err(ProcessorError::UnimplementedOpcode { opcode: 0x0EEE }));
    assert_eq!(processor.pc, 0x200);
}

#[test]
fn unsupported_family_is_reported_with_full_word() {
    let mut processor = machine_with(&[0xEE, 0xEE]);
    let result = processor.execute_cycle();
    assert_eq!(result, Err(ProcessorError::UnimplementedOpcode { opcode: 0xEEEE }));
    assert_eq!(processor.pc, 0x200);
    assert_eq!(processor.tick(), Err(ProcessorError::UnimplementedOpcode { opcode: 0xEEEE }));
}

#[test]
fn unsupported_alu_kind_is_reported() {
    let mut processor = Processor::default();
    let result = processor.math_bit_ops([0x8, 0x1, 0x2, 0x9]);
    assert_eq!(result, Err(ProcessorError::UnimplementedOpcode { opcode: 0x8129 }));
}

#[test]
fn full_opcode_spells_the_nibbles() {
    assert_eq!(Processor::full_opcode([0xE, 0xE, 0xE, 0xE]), 0xEEEE);
    assert_eq!(Processor::full_opcode([0x1, 0x2, 0x3, 0x4]), 0x1234);
    assert_eq!(Processor::full_opcode([0x0, 0x0, 0x0, 0x0]), 0);
}

#[test]
fn current_opcode_splits_the_word_at_pc() {
    let processor = machine_with(&[0xD1, 0x2F]);
    assert_eq!(processor.current_opcode(), [0xD, 0x1, 0x2, 0xF]);
}

#[test]
fn load_immediate_overwrites_any_value() {
    for prior in [0u8, 1, 0x7F, 0xFF] {
        let mut processor = Processor::default();
        processor.v[3] = prior;
        assert_eq!(processor.const_ops([0x6, 0x3, 0x4, 0x2]), Ok(2));
        assert_eq!(processor.v[3], 0x42);
    }
}

#[test]
fn add_immediate_leaves_flag_alone() {
    let mut processor = Processor::default();
    processor.v[0xF] = 7;
    processor.v[2] = 250;
    assert_eq!(processor.const_ops([0x7, 0x2, 0x1, 0x0]), Ok(2));
    assert_eq!(processor.v[2], 255);
    assert_eq!(processor.v[0xF], 7);
}

#[test]
fn register_add_wraps_and_flags_carry() {
    let mut processor = Processor::default();
    processor.v[1] = 200;
    processor.v[2] = 100;
    assert_eq!(processor.math_bit_ops([0x8, 0x1, 0x2, 0x4]), Ok(2));
    assert_eq!(processor.v[1], 44);
    assert_eq!(processor.v[0xF], 1);

    processor.v[1] = 1;
    processor.v[2] = 2;
    processor.math_bit_ops([0x8, 0x1, 0x2, 0x4]).unwrap();
    assert_eq!(processor.v[1], 3);
    assert_eq!(processor.v[0xF], 0);
}

#[test]
fn register_add_at_the_boundary() {
    let mut processor = Processor::default();
    processor.v[1] = 255;
    processor.v[2] = 0;
    processor.math_bit_ops([0x8, 0x1, 0x2, 0x4]).unwrap();
    assert_eq!(processor.v[1], 255);
    assert_eq!(processor.v[0xF], 0);
    processor.v[2] = 1;
    processor.math_bit_ops([0x8, 0x1, 0x2, 0x4]).unwrap();
    assert_eq!(processor.v[1], 0);
    assert_eq!(processor.v[0xF], 1);
}

#[test]
fn register_sub_wraps_and_flags_borrow() {
    let mut processor = Processor::default();
    processor.v[1] = 5;
    processor.v[2] = 10;
    assert_eq!(processor.math_bit_ops([0x8, 0x1, 0x2, 0x5]), Ok(2));
    assert_eq!(processor.v[1], 251);
    assert_eq!(processor.v[0xF], 1);

    processor.v[1] = 10;
    processor.v[2] = 5;
    processor.math_bit_ops([0x8, 0x1, 0x2, 0x5]).unwrap();
    assert_eq!(processor.v[1], 5);
    assert_eq!(processor.v[0xF], 0);
}

#[test]
fn reversed_sub_wraps_and_flags_borrow() {
    let mut processor = Processor::default();
    processor.v[1] = 10;
    processor.v[2] = 5;
    processor.math_bit_ops([0x8, 0x1, 0x2, 0x7]).unwrap();
    assert_eq!(processor.v[1], 251);
    assert_eq!(processor.v[0xF], 1);
}

#[test]
fn bitwise_and_copy_ops() {
    let mut processor = Processor::default();
    processor.v[1] = 0b1100;
    processor.v[2] = 0b1010;
    processor.math_bit_ops([0x8, 0x1, 0x2, 0x1]).unwrap();
    assert_eq!(processor.v[1], 0b1110);
    processor.v[1] = 0b1100;
    processor.math_bit_ops([0x8, 0x1, 0x2, 0x2]).unwrap();
    assert_eq!(processor.v[1], 0b1000);
    processor.v[1] = 0b1100;
    processor.math_bit_ops([0x8, 0x1, 0x2, 0x3]).unwrap();
    assert_eq!(processor.v[1], 0b0110);
    processor.math_bit_ops([0x8, 0x1, 0x2, 0x0]).unwrap();
    assert_eq!(processor.v[1], 0b1010);
}

#[test]
fn shifts_set_flag_before_shifting() {
    let mut processor = Processor::default();
    processor.v[2] = 0b1000_0011;
    processor.math_bit_ops([0x8, 0x1, 0x2, 0x6]).unwrap();
    assert_eq!(processor.v[1], 0b0100_0001);
    assert_eq!(processor.v[0xF], 1);

    processor.v[2] = 0b1000_0011;
    processor.math_bit_ops([0x8, 0x1, 0x2, 0xE]).unwrap();
    assert_eq!(processor.v[0xF], 0x80);
    assert_eq!(processor.v[2], 0b0000_0110);
    assert_eq!(processor.v[1], 0b0000_0110);
}

#[test]
fn call_then_return_resumes_after_the_call() {
    let mut processor = machine_with(&[0x22, 0x04, 0x00, 0x00, 0x00, 0xEE]);
    assert_eq!(processor.tick(), Ok(true));
    assert_eq!(processor.pc, 0x204);
    assert_eq!(processor.sp, 1);
    assert_eq!(processor.stack[0], 0x200);
    assert_eq!(processor.tick(), Ok(true));
    assert_eq!(processor.pc, 0x202);
    assert_eq!(processor.sp, 0);
}

#[test]
fn return_on_empty_stack_is_a_no_op() {
    let mut processor = Processor::default();
    assert_eq!(processor.misc_ops([0x0, 0x0, 0xE, 0xE]), Ok(2));
    assert_eq!(processor.pc, 0x200);
    assert_eq!(processor.sp, 0);
}

#[test]
fn call_with_full_stack_is_refused() {
    let mut processor = Processor::default();
    processor.sp = 16;
    let result = processor.control_flow_ops([0x2, 0x3, 0x0, 0x0]);
    assert_eq!(result, Err(ProcessorError::StackOverflow { opcode: 0x2300 }));
    assert_eq!(processor.pc, 0x200);
    assert_eq!(processor.sp, 16);
}

#[test]
fn jump_with_offset_does_not_wrap() {
    let mut processor = Processor::default();
    processor.v[0] = 0xFF;
    assert_eq!(processor.control_flow_ops([0xB, 0xF, 0xF, 0xF]), Ok(0));
    assert_eq!(processor.pc, 0x10FE);
    assert_eq!(processor.tick(), Ok(false));
    assert_eq!(processor.pc, 0x10FE);
}

#[test]
fn jump_with_offset_pairs() {
    for (v0, target) in [(0u8, 0u16), (0x10, 0x200), (0xFF, 0xF00), (1, 0xFFF)] {
        let mut processor = Processor::default();
        processor.v[0] = v0;
        let op = [0xB, (target >> 8) as u8, ((target >> 4) & 0xF) as u8, (target & 0xF) as u8];
        processor.control_flow_ops(op).unwrap();
        assert_eq!(processor.pc, usize::from(v0) + usize::from(target));
    }
}

#[test]
fn tick_advances_by_one_instruction() {
    let mut processor = machine_with(&[0x61, 0x2A, 0x12, 0x00]);
    assert_eq!(processor.tick(), Ok(true));
    assert_eq!(processor.v[1], 0x2A);
    assert_eq!(processor.pc, 0x202);
    assert_eq!(processor.tick(), Ok(true));
    assert_eq!(processor.pc, 0x200);
}

#[test]
fn tick_stops_at_the_end_of_memory() {
    let mut processor = Processor::default();
    processor.pc = 4095;
    assert_eq!(processor.tick(), Ok(false));
    assert_eq!(processor.pc, 4095);
}

#[test]
fn load_rom_copies_at_program_start() {
    let mut processor = Processor::default();
    assert_eq!(processor.load_rom(&[1, 2, 3]), 3);
    assert_eq!(processor.memory[0x1FF], 0);
    assert_eq!(&processor.memory[0x200..0x203], &[1, 2, 3]);
    assert_eq!(processor.memory[0x203], 0);
}

#[test]
fn load_rom_truncates_to_memory() {
    let rom = vec![0xAB; 4000];
    let mut processor = Processor::default();
    assert_eq!(processor.load_rom(&rom), 4096 - 0x200);
    assert_eq!(processor.memory[4095], 0xAB);
    assert_eq!(processor.memory[0x1FF], 0);
}

#[test]
fn draw_reads_sprite_at_index_register() {
    let mut processor = Processor::default();
    processor.i = 0x300;
    processor.memory[0x300] = 0b1010_0000;
    assert_eq!(processor.display_ops([0xD, 0x2, 0x3, 0x1]), Ok(2));
    assert_eq!(processor.v[0xF], 0);
    assert!(processor.display.pixel(2, 3));
    assert!(!processor.display.pixel(3, 3));
    assert!(processor.display.pixel(4, 3));
    assert!(processor.display.is_dirty());

    assert_eq!(processor.display_ops([0xD, 0x2, 0x3, 0x1]), Ok(2));
    assert_eq!(processor.v[0xF], 1);
    assert!(!processor.display.pixel(2, 3));
}

#[test]
fn clear_opcode_blanks_display() {
    let mut processor = Processor::default();
    processor.memory[0] = 0xFF;
    processor.display_ops([0xD, 0x0, 0x0, 0x1]).unwrap();
    assert_eq!(processor.misc_ops([0x0, 0x0, 0xE, 0x0]), Ok(2));
    for x in 0..WIDTH {
        assert!(!processor.display.pixel(x, 0));
    }
    assert!(processor.display.is_dirty());
}
