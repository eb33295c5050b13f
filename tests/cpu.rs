use std::sync::mpsc::{channel, Sender};

use rust8::cpu::{Fault, CPU};
use rust8::display::Display;
use rust8::keyboard::Keyboard;
use rust8::ram::RAM;

fn cpu_tester<F>(test: &mut F)
where
    F: FnMut(&mut CPU, &Sender<u8>),
{
    let (sender, receiver) = channel();
    let mut cpu = CPU::init(RAM::init(), Display::init(), Keyboard::init(receiver));
    test(&mut cpu, &sender);
}

#[test]
fn test_00e0() { // Clear Screen
    cpu_tester(&mut |cpu, _sender| {
        let rom = [0x00, 0xE0,  // Clear screen
                   0x60, 0x00,  // Set x0 to 0
                   0xF0, 0x29,  // Load fontset for 0
                   0xD0, 0x01,  // Draw image in x0
                   0x00, 0xE0];  // Clear screen
        cpu.load_rom(&rom);
        cpu.run_cycle().unwrap();
        assert_eq!(cpu.get_display()[0], 0);

        cpu.run_cycle().unwrap();
        cpu.run_cycle().unwrap();
        cpu.run_cycle().unwrap();
        assert!(cpu.get_display()[0] != 0);

        cpu.run_cycle().unwrap();
        assert_eq!(cpu.get_display()[0], 0);
    })
}

#[test]
fn test_6xnn() { // Set Address
    cpu_tester(&mut |cpu, _sender| {
        let rom = [0x60, 0xAB,
                   0x60, 0xCC,
                   0x6E, 0x42];
        cpu.load_rom(&rom);
        cpu.run_cycle().unwrap();
        assert_eq!(cpu.get_reg(0), 0xAB);
        cpu.run_cycle().unwrap();
        assert_eq!(cpu.get_reg(0), 0xCC);
        cpu.run_cycle().unwrap();
        assert_eq!(cpu.get_reg(14), 0x42);
    })
}

#[test]
fn test_7xnn() { // Add To Reg
    cpu_tester(&mut |cpu, _sender| {
        let rom = [0x70, 0x11,
                   0x70, 0x22,
                   0x70, 0xCE];
        cpu.load_rom(&rom);
        cpu.run_cycle().unwrap();
        assert_eq!(cpu.get_reg(0), 0x11);
        cpu.run_cycle().unwrap();
        assert_eq!(cpu.get_reg(0), 0x33);

        // Test no-carry
        cpu.run_cycle().unwrap();
        assert_eq!(cpu.get_reg(0), 0x01);
        assert_eq!(cpu.get_carry(), 0x00);
    })
}

#[test]
fn test_8xy0() { // Set X to Y
    cpu_tester(&mut |cpu, _sender| {
        let rom = [0x80, 0x10,
                   0x61, 0xAB,
                   0x80, 0x10];
        cpu.load_rom(&rom);
        cpu.run_cycle().unwrap();
        assert_eq!(cpu.get_reg(0), 0x00);
        assert_eq!(cpu.get_reg(1), 0x00);

        cpu.run_cycle().unwrap();
        cpu.run_cycle().unwrap();
        assert_eq!(cpu.get_reg(0), 0xAB);
        assert_eq!(cpu.get_reg(1), 0xAB);
    })
}

#[test]
fn test_8xy1() { // X |= Y
    cpu_tester(&mut |cpu, _sender| {
        let rom = [0x80, 0x11,
                   0x60, 0x01,
                   0x61, 0x02,
                   0x80, 0x11];
        cpu.load_rom(&rom);
        cpu.run_cycle().unwrap();
        assert_eq!(cpu.get_reg(0), 0x00);
        assert_eq!(cpu.get_reg(1), 0x00);

        cpu.run_cycle().unwrap();
        assert_eq!(cpu.get_reg(0), 0x01);
        cpu.run_cycle().unwrap();
        assert_eq!(cpu.get_reg(1), 0x02);
        cpu.run_cycle().unwrap();
        assert_eq!(cpu.get_reg(0), 0x03);
        assert_eq!(cpu.get_reg(1), 0x02);
    })
}

#[test]
fn test_8xy2() { // X &= Y
    cpu_tester(&mut |cpu, _sender| {
        let rom = [0x80, 0x12,
                   0x60, 0x06,
                   0x61, 0x03,
                   0x80, 0x12];
        cpu.load_rom(&rom);
        cpu.run_cycle().unwrap();
        assert_eq!(cpu.get_reg(0), 0x00);
        assert_eq!(cpu.get_reg(1), 0x00);

        cpu.run_cycle().unwrap();
        assert_eq!(cpu.get_reg(0), 0x06);
        cpu.run_cycle().unwrap();
        assert_eq!(cpu.get_reg(1), 0x03);
        cpu.run_cycle().unwrap();
        assert_eq!(cpu.get_reg(0), 0x02);
        assert_eq!(cpu.get_reg(1), 0x03);
    })
}

#[test]
fn test_8xy3() { // X ^= Y
    cpu_tester(&mut |cpu, _sender| {
        let rom = [0x80, 0x13,
                   0x60, 0x03,
                   0x61, 0x01,
                   0x80, 0x13];
        cpu.load_rom(&rom);
        cpu.run_cycle().unwrap();
        assert_eq!(cpu.get_reg(0), 0x00);
        assert_eq!(cpu.get_reg(1), 0x00);

        cpu.run_cycle().unwrap();
        assert_eq!(cpu.get_reg(0), 0x03);
        cpu.run_cycle().unwrap();
        assert_eq!(cpu.get_reg(1), 0x01);
        cpu.run_cycle().unwrap();
        assert_eq!(cpu.get_reg(0), 0x02);
        assert_eq!(cpu.get_reg(1), 0x01);
    })
}

#[test]
fn test_8xy4() { // X += Y (with carry)
    cpu_tester(&mut |cpu, _sender| {
        let rom = [0x80, 0x14,
                   0x60, 0x11,
                   0x61, 0x22,
                   0x80, 0x14,
                   0x61, 0xCE,
                   0x80, 0x14];
        cpu.load_rom(&rom);
        cpu.run_cycle().unwrap();
        assert_eq!(cpu.get_reg(0), 0x00);
        assert_eq!(cpu.get_reg(1), 0x00);

        cpu.run_cycle().unwrap();
        assert_eq!(cpu.get_reg(0), 0x11);
        cpu.run_cycle().unwrap();
        assert_eq!(cpu.get_reg(1), 0x22);
        cpu.run_cycle().unwrap();
        assert_eq!(cpu.get_reg(0), 0x33);
        assert_eq!(cpu.get_reg(1), 0x22);
        assert_eq!(cpu.get_carry(), 0x00);
        cpu.run_cycle().unwrap();
        assert_eq!(cpu.get_reg(1), 0xCE);
        cpu.run_cycle().unwrap();
        assert_eq!(cpu.get_reg(0), 0x01);
        assert_eq!(cpu.get_carry(), 0x01);
    })
}

#[test]
fn test_8xy5() { // X -= Y (with borrow)
    cpu_tester(&mut |cpu, _sender| {
        let rom = [0x80, 0x15,
                   0x60, 0x22,
                   0x61, 0x11,
                   0x80, 0x15,
                   0x61, 0x12,
                   0x80, 0x15];
        cpu.load_rom(&rom);
        cpu.run_cycle().unwrap();
        assert_eq!(cpu.get_reg(0), 0x00);
        assert_eq!(cpu.get_reg(1), 0x00);

        cpu.run_cycle().unwrap();
        assert_eq!(cpu.get_reg(0), 0x22);
        cpu.run_cycle().unwrap();
        assert_eq!(cpu.get_reg(1), 0x11);
        cpu.run_cycle().unwrap();
        assert_eq!(cpu.get_reg(0), 0x11);
        assert_eq!(cpu.get_reg(1), 0x11);
        assert_eq!(cpu.get_carry(), 0x00);
        cpu.run_cycle().unwrap();
        assert_eq!(cpu.get_reg(1), 0x12);
        cpu.run_cycle().unwrap();
        assert_eq!(cpu.get_reg(0), 0xFF);
        assert_eq!(cpu.get_carry(), 0x01);
    })
}

#[test]
fn test_8xy6() { // X >>= Y (with spillover)
    cpu_tester(&mut |cpu, _sender| {
        let rom = [0x80, 0x16,
                   0x61, 0x06,
                   0x80, 0x16,
                   0x61, 0x03,
                   0x80, 0x16];
        cpu.load_rom(&rom);
        cpu.run_cycle().unwrap();
        assert_eq!(cpu.get_reg(0), 0x00);
        assert_eq!(cpu.get_reg(1), 0x00);

        cpu.run_cycle().unwrap();
        assert_eq!(cpu.get_reg(1), 0x06);

        cpu.run_cycle().unwrap();
        assert_eq!(cpu.get_reg(0), 0x03);
        assert_eq!(cpu.get_reg(1), 0x06);
        assert_eq!(cpu.get_carry(), 0x00);

        cpu.run_cycle().unwrap();
        assert_eq!(cpu.get_reg(1), 0x03);

        cpu.run_cycle().unwrap();
        assert_eq!(cpu.get_reg(0), 0x01);
        assert_eq!(cpu.get_reg(1), 0x03);
        assert_eq!(cpu.get_carry(), 0x01);
    })
}

#[test]
fn test_8xy7() { // X = Y - X (with borrow)
    cpu_tester(&mut |cpu, _sender| {
        let rom = [0x80, 0x17,
                   0x60, 0x11,
                   0x61, 0x22,
                   0x80, 0x17,
                   0x61, 0x10,
                   0x80, 0x17];
        cpu.load_rom(&rom);
        cpu.run_cycle().unwrap();
        assert_eq!(cpu.get_reg(0), 0x00);
        assert_eq!(cpu.get_reg(1), 0x00);

        cpu.run_cycle().unwrap();
        assert_eq!(cpu.get_reg(0), 0x11);
        cpu.run_cycle().unwrap();
        assert_eq!(cpu.get_reg(1), 0x22);
        cpu.run_cycle().unwrap();
        assert_eq!(cpu.get_reg(0), 0x11);
        assert_eq!(cpu.get_reg(1), 0x22);
        assert_eq!(cpu.get_carry(), 0x00);

        cpu.run_cycle().unwrap();
        assert_eq!(cpu.get_reg(1), 0x10);
        cpu.run_cycle().unwrap();
        assert_eq!(cpu.get_reg(0), 0xFF);
        assert_eq!(cpu.get_carry(), 0x01);
    })
}

#[test]
fn test_8xye() { // X <<= Y (with spillover)
    cpu_tester(&mut |cpu, _sender| {
        let rom = [0x80, 0x1E,
                   0x61, 0x7F,
                   0x80, 0x1E,
                   0x61, 0xFE,
                   0x80, 0x1E];
        cpu.load_rom(&rom);
        cpu.run_cycle().unwrap();
        assert_eq!(cpu.get_reg(0), 0x00);
        assert_eq!(cpu.get_reg(1), 0x00);

        cpu.run_cycle().unwrap();
        assert_eq!(cpu.get_reg(1), 0x7F);

        cpu.run_cycle().unwrap();
        assert_eq!(cpu.get_reg(0), 0xFE);
        assert_eq!(cpu.get_reg(1), 0x7F);
        assert_eq!(cpu.get_carry(), 0x00);

        cpu.run_cycle().unwrap();
        assert_eq!(cpu.get_reg(1), 0xFE);

        cpu.run_cycle().unwrap();
        assert_eq!(cpu.get_reg(0), 0xFC);
        assert_eq!(cpu.get_reg(1), 0xFE);
        assert_eq!(cpu.get_carry(), 0x01);
    })
}

#[test]
fn test_delay_timer() { // FX07, FX15
    cpu_tester(&mut |cpu, _sender| {
        let rom = [0xF0, 0x07,
                   0x60, 0x03,
                   0xF0, 0x15,
                   0xF0, 0x07];
        cpu.load_rom(&rom);

        cpu.run_cycle().unwrap();
        assert_eq!(cpu.get_delay(), 0);

        cpu.run_cycle().unwrap();
        assert_eq!(cpu.get_reg(0), 0x03);
        cpu.run_cycle().unwrap();
        assert_eq!(cpu.get_delay(), 0x02);

        cpu.run_cycle().unwrap();
        assert_eq!(cpu.get_reg(0), 0x02);
    });
}

#[test]
fn test_basic_subroutine_flow() {
    cpu_tester(&mut |cpu, _sender| {
        let rom = [0x22, 0x04,
                   0x60, 0x01,
                   0x60, 0x03,
                   0x00, 0xEE];
        cpu.load_rom(&rom);

        cpu.run_cycle().unwrap();
        assert_eq!(cpu.get_reg(0), 0);
        cpu.run_cycle().unwrap();
        assert_eq!(cpu.get_reg(0), 0x03);
        cpu.run_cycle().unwrap();
        cpu.run_cycle().unwrap();
        assert_eq!(cpu.get_reg(0), 0x01);
    });
}

#[test]
fn test_3xnn() {
    cpu_tester(&mut |cpu, _sender| {
        let rom = [0x30, 0x01,
                   0x60, 0x03,
                   0x30, 0x03,
                   0x60, 0x04,
                   0x60, 0x05];
        cpu.load_rom(&rom);

        cpu.run_cycle().unwrap();
        assert_eq!(cpu.get_reg(0), 0);
        cpu.run_cycle().unwrap();
        assert_eq!(cpu.get_reg(0), 3);

        cpu.run_cycle().unwrap();
        assert_eq!(cpu.get_reg(0), 3);
        cpu.run_cycle().unwrap();
        assert_eq!(cpu.get_reg(0), 5);
    });
}

#[test]
fn test_4xnn() {
    cpu_tester(&mut |cpu, _sender| {
        let rom = [0x40, 0x00,
                   0x60, 0x03,
                   0x40, 0x01,
                   0x60, 0x04,
                   0x60, 0x05];
        cpu.load_rom(&rom);

        cpu.run_cycle().unwrap();
        assert_eq!(cpu.get_reg(0), 0);
        cpu.run_cycle().unwrap();
        assert_eq!(cpu.get_reg(0), 3);

        cpu.run_cycle().unwrap();
        assert_eq!(cpu.get_reg(0), 3);
        cpu.run_cycle().unwrap();
        assert_eq!(cpu.get_reg(0), 5);
    });
}

#[test]
fn test_5xy0() {
    cpu_tester(&mut |cpu, _sender| {
        let rom = [0x60, 0x01,
                   0x50, 0x10,
                   0x61, 0x01,
                   0x50, 0x10,
                   0x60, 0x04,
                   0x60, 0x05];
        cpu.load_rom(&rom);

        cpu.run_cycle().unwrap();
        assert_eq!(cpu.get_reg(0), 0x01);
        assert_eq!(cpu.get_reg(1), 0x00);
        cpu.run_cycle().unwrap();
        assert_eq!(cpu.get_reg(0), 0x01);
        assert_eq!(cpu.get_reg(1), 0x00);
        cpu.run_cycle().unwrap();
        assert_eq!(cpu.get_reg(0), 0x01);
        assert_eq!(cpu.get_reg(1), 0x01);

        cpu.run_cycle().unwrap();
        cpu.run_cycle().unwrap();
        assert_eq!(cpu.get_reg(0), 0x05);
    });
}

#[test]
fn test_annn() {
    cpu_tester(&mut |cpu, _sender| {
        let rom = [0xA0, 0x42];
        cpu.load_rom(&rom);

        assert_eq!(cpu.get_i(), 0);

        cpu.run_cycle().unwrap();
        assert_eq!(cpu.get_i(), 0x42);
    });
}

#[test]
fn test_bnnn() {
    cpu_tester(&mut |cpu, _sender| {
        let rom = [0xB2, 0x04,
                   0x60, 0x01,
                   0x60, 0x06,
                   0xB2, 0x04,
                   0x60, 0x02,
                   0x60, 0x03];

        cpu.load_rom(&rom);

        cpu.run_cycle().unwrap();
        cpu.run_cycle().unwrap();
        assert_eq!(cpu.get_reg(0), 0x06);

        cpu.run_cycle().unwrap();
        cpu.run_cycle().unwrap();
        assert_eq!(cpu.get_reg(0), 0x03);
    });
}

#[test]
fn test_ex9e() {
    cpu_tester(&mut |cpu, sender| {
        let rom = [0xE0, 0x9E,
                   0x60, 0x01,
                   0xE0, 0x9E,
                   0x60, 0x02,
                   0x60, 0x03];
        cpu.load_rom(&rom);

        cpu.run_cycle().unwrap();
        cpu.run_cycle().unwrap();
        assert_eq!(cpu.get_reg(0), 0x01);

        let _ = sender.send('2' as u8);
        cpu.run_cycle().unwrap();
        cpu.run_cycle().unwrap();
        assert_eq!(cpu.get_reg(0), 0x03);
    });
}

#[test]
fn test_exa1() {
    cpu_tester(&mut |cpu, sender| {
        let rom = [0x60, 0x01,
                   0xE0, 0xA1,
                   0x60, 0x02,
                   0xE0, 0xA1,
                   0x60, 0x03,
                   0x60, 0x04];
        cpu.load_rom(&rom);

        cpu.run_cycle().unwrap();
        let _ = sender.send('2' as u8);
        cpu.run_cycle().unwrap();
        cpu.run_cycle().unwrap();
        assert_eq!(cpu.get_reg(0), 0x02);
        let _ = sender.send('1' as u8);
        cpu.run_cycle().unwrap();
        cpu.run_cycle().unwrap();
        assert_eq!(cpu.get_reg(0), 0x04);
    });
}

#[test]
fn test_fx1e() {
    cpu_tester(&mut |cpu, _sender| {
        let rom = [0x60, 0x01,
                   0xF0, 0x1E];
        cpu.load_rom(&rom);

        cpu.run_cycle().unwrap();
        assert_eq!(cpu.get_i(), 0);
        assert_eq!(cpu.get_reg(0), 1);

        cpu.run_cycle().unwrap();
        assert_eq!(cpu.get_i(), 1);
        assert_eq!(cpu.get_reg(0), 1);
    });
}

#[test]
fn test_fx33() {
    cpu_tester(&mut |cpu, _sender| {
        let rom = [0x60, 0xFE,
                   0xF0, 0x33,
                   0x60, 0x01,
                   0xF0, 0x1E,
                   0xF0, 0x1E];
        cpu.load_rom(&rom);

        cpu.run_cycle().unwrap();
        assert_eq!(cpu.get_reg(0), 0xFE);
        assert_eq!(cpu.get_i(), 0);

        cpu.run_cycle().unwrap();
        assert_eq!(cpu.get_i(), 0);
        assert_eq!(cpu.get_at_i(), 2);

        cpu.run_cycle().unwrap();
        assert_eq!(cpu.get_reg(0), 1);
        cpu.run_cycle().unwrap();
        assert_eq!(cpu.get_i(), 1);
        assert_eq!(cpu.get_at_i(), 5);

        cpu.run_cycle().unwrap();
        assert_eq!(cpu.get_i(), 2);
        assert_eq!(cpu.get_at_i(), 4);
    });
}

#[test]
fn test_fx55() {
    cpu_tester(&mut |cpu, _sender| {
        let rom = [0xAF, 0x00,
                   0x60, 0x00,
                   0x61, 0x01,
                   0x62, 0x02,
                   0x63, 0x03,
                   0x64, 0x04,
                   0x65, 0x05,
                   0x66, 0x06,
                   0x67, 0x07,
                   0x68, 0x08,
                   0xF7, 0x55,
                   0xAF, 0x00,
                   0xF1, 0x1E,
                   0xF1, 0x1E,
                   0xF1, 0x1E,
                   0xF1, 0x1E,
                   0xF1, 0x1E,
                   0xF1, 0x1E,
                   0xF1, 0x1E,
                   0xF1, 0x1E];
        cpu.load_rom(&rom);

        cpu.run_cycle().unwrap();
        cpu.run_cycle().unwrap();
        cpu.run_cycle().unwrap();
        cpu.run_cycle().unwrap();
        cpu.run_cycle().unwrap();
        cpu.run_cycle().unwrap();
        cpu.run_cycle().unwrap();
        cpu.run_cycle().unwrap();
        cpu.run_cycle().unwrap();
        cpu.run_cycle().unwrap();
        assert_eq!(cpu.get_i(), 0x0F00);
        cpu.run_cycle().unwrap();
        assert_eq!(cpu.get_i(), 0x0F08);
        cpu.run_cycle().unwrap();
        assert_eq!(cpu.get_i(), 0x0F00);
        assert_eq!(cpu.get_at_i(), 0);
        cpu.run_cycle().unwrap();
        assert_eq!(cpu.get_at_i(), 1);
        cpu.run_cycle().unwrap();
        assert_eq!(cpu.get_at_i(), 2);
        cpu.run_cycle().unwrap();
        assert_eq!(cpu.get_at_i(), 3);
        cpu.run_cycle().unwrap();
        assert_eq!(cpu.get_at_i(), 4);
        cpu.run_cycle().unwrap();
        assert_eq!(cpu.get_at_i(), 5);
        cpu.run_cycle().unwrap();
        assert_eq!(cpu.get_at_i(), 6);
        cpu.run_cycle().unwrap();
        assert_eq!(cpu.get_at_i(), 7);
        cpu.run_cycle().unwrap();
        assert_eq!(cpu.get_at_i(), 0);
    });
}

#[test]
fn test_fx65() {
    cpu_tester(&mut |cpu, _sender| {
        let rom = [0xA0, 0x00,
                   0xF7, 0x65];
        cpu.load_rom(&rom);

        cpu.run_cycle().unwrap();
        cpu.run_cycle().unwrap();
        assert_eq!(cpu.get_reg(0), 0xF0);
        assert_eq!(cpu.get_reg(1), 0x90);
        assert_eq!(cpu.get_reg(2), 0x90);
        assert_eq!(cpu.get_reg(3), 0x90);
        assert_eq!(cpu.get_reg(4), 0xF0);
        assert_eq!(cpu.get_reg(5), 0x20);
        assert_eq!(cpu.get_reg(6), 0x60);
        assert_eq!(cpu.get_reg(7), 0x20);
        assert_eq!(cpu.get_reg(8), 0x00);
    });
}

#[test]
fn test_collision() {
    cpu_tester(&mut |cpu, _sender| {
        let rom = [0xD0, 0x01,
                   0xD0, 0x01];
        cpu.load_rom(&rom);

        cpu.run_cycle().unwrap();
        assert_eq!(cpu.get_carry(), 0x00);

        cpu.run_cycle().unwrap();
        assert_eq!(cpu.get_carry(), 0x01);
    });
}

#[test]
fn font_glyph_zero_drawn_one_row() {
    cpu_tester(&mut |cpu, _sender| {
        let rom = [0x60, 0x00, 0xF0, 0x29, 0xD0, 0x01];
        cpu.load_rom(&rom);
        cpu.run_cycle().unwrap();
        cpu.run_cycle().unwrap();
        cpu.run_cycle().unwrap();
        let frame = cpu.get_display();
        assert_eq!(frame[0], 0xF0u64 << 56);
        for r in 1..32 {
            assert_eq!(frame[r], 0);
        }
        assert_eq!(cpu.get_carry(), 0);
    });
}

#[test]
fn font_glyph_zero_drawn_five_rows() {
    cpu_tester(&mut |cpu, _sender| {
        let rom = [0x60, 0x00, 0xF0, 0x29, 0xD0, 0x05];
        cpu.load_rom(&rom);
        cpu.run_cycle().unwrap();
        cpu.run_cycle().unwrap();
        cpu.run_cycle().unwrap();
        let frame = cpu.get_display();
        let glyph = [0xF0u64, 0x90, 0x90, 0x90, 0xF0];
        for r in 0..5 {
            assert_eq!(frame[r], glyph[r] << 56);
        }
        assert_eq!(frame[5], 0);
        assert_eq!(cpu.get_carry(), 0);
    });
}

#[test]
fn call_then_return_skips_the_called_load() {
    cpu_tester(&mut |cpu, _sender| {
        let rom = [0x22, 0x04, 0x60, 0x01, 0x60, 0x03, 0x00, 0xEE];
        cpu.load_rom(&rom);
        for _ in 0..4 {
            cpu.run_cycle().unwrap();
        }
        assert_eq!(cpu.get_reg(0), 0x01);
    });
}

#[test]
fn add_into_flag_register_keeps_the_flag() {
    cpu_tester(&mut |cpu, _sender| {
        let rom = [0x6F, 0x01, 0x61, 0x02, 0x8F, 0x14];
        cpu.load_rom(&rom);
        cpu.run_cycle().unwrap();
        cpu.run_cycle().unwrap();
        cpu.run_cycle().unwrap();
        assert_eq!(cpu.get_carry(), 0x00);
    });
}

#[test]
fn skip_moves_by_four_or_two() {
    cpu_tester(&mut |cpu, _sender| {
        let rom = [0x30, 0x00, 0x00, 0x00, 0x30, 0x01, 0x60, 0x07];
        cpu.load_rom(&rom);
        cpu.run_cycle().unwrap();
        cpu.run_cycle().unwrap();
        cpu.run_cycle().unwrap();
        assert_eq!(cpu.get_reg(0), 0x07);
    });
}

#[test]
fn dump_mutate_load_restores_registers() {
    cpu_tester(&mut |cpu, _sender| {
        let mut rom = vec![0xA3, 0x00];
        for r in 0..8u8 {
            rom.push(0x60 + r);
            rom.push(0x10 + r);
        }
        rom.extend_from_slice(&[0xF7, 0x55]);
        for r in 0..8u8 {
            rom.push(0x60 + r);
            rom.push(0xEE);
        }
        rom.extend_from_slice(&[0xA3, 0x00, 0xF7, 0x65]);
        cpu.load_rom(&rom);
        for _ in 0..10 {
            cpu.run_cycle().unwrap();
        }
        assert_eq!(cpu.get_i(), 0x308);
        for _ in 0..8 {
            cpu.run_cycle().unwrap();
        }
        assert_eq!(cpu.get_reg(3), 0xEE);
        cpu.run_cycle().unwrap();
        cpu.run_cycle().unwrap();
        assert_eq!(cpu.get_i(), 0x308);
        for r in 0..8 {
            assert_eq!(cpu.get_reg(r), 0x10 + r as u8);
        }
    });
}

#[test]
fn bcd_of_zero_and_of_255() {
    cpu_tester(&mut |cpu, _sender| {
        let rom = [0xA3, 0x00, 0x60, 0xFF, 0xF0, 0x33, 0xF2, 0x65];
        cpu.load_rom(&rom);
        for _ in 0..4 {
            cpu.run_cycle().unwrap();
        }
        assert_eq!(cpu.get_reg(0), 2);
        assert_eq!(cpu.get_reg(1), 5);
        assert_eq!(cpu.get_reg(2), 5);
    });
}

#[test]
fn random_byte_is_masked() {
    cpu_tester(&mut |cpu, _sender| {
        let rom = [0xC0, 0x00, 0xC1, 0x0F];
        cpu.load_rom(&rom);
        cpu.run_cycle().unwrap();
        cpu.run_cycle().unwrap();
        assert_eq!(cpu.get_reg(0), 0);
        assert!(cpu.get_reg(1) <= 0x0F);
    });
}

#[test]
fn run_cycle_with_uses_the_given_random_byte() {
    cpu_tester(&mut |cpu, _sender| {
        let rom = [0xC3, 0x3C];
        cpu.load_rom(&rom);
        let op = cpu.run_cycle_with(0xA5, None).unwrap();
        assert_eq!(op.data(), 0x33C);
        assert_eq!(cpu.get_reg(3), 0x24);
    });
}

#[test]
fn key_wait_stays_until_a_key_arrives() {
    cpu_tester(&mut |cpu, sender| {
        let rom = [0xF5, 0x0A, 0x60, 0x09];
        cpu.load_rom(&rom);
        cpu.run_cycle().unwrap();
        cpu.run_cycle().unwrap();
        assert_eq!(cpu.get_reg(0), 0);
        assert_eq!(cpu.get_reg(5), 0);
        let _ = sender.send('3' as u8);
        cpu.run_cycle().unwrap();
        assert_eq!(cpu.get_reg(5), 0x02);
        cpu.run_cycle().unwrap();
        assert_eq!(cpu.get_reg(0), 0x09);
    });
}

#[test]
fn key_wait_with_given_sample() {
    cpu_tester(&mut |cpu, _sender| {
        let rom = [0xF5, 0x0A];
        cpu.load_rom(&rom);
        cpu.run_cycle_with(0, None).unwrap();
        assert_eq!(cpu.get_reg(5), 0);
        cpu.run_cycle_with(0, Some('k' as u8)).unwrap();
        assert_eq!(cpu.get_reg(5), 15);
        assert!(cpu.get_key(15));
    });
}

#[test]
fn exit_byte_sets_the_exit_flag() {
    cpu_tester(&mut |cpu, sender| {
        assert!(!cpu.exit_key());
        let _ = sender.send('l' as u8);
        cpu.read_input();
        assert!(cpu.exit_key());
    });
}

#[test]
fn sound_timer_counts_down_to_zero() {
    cpu_tester(&mut |cpu, _sender| {
        let rom = [0x60, 0x02, 0xF0, 0x18, 0x00, 0xE0, 0x00, 0xE0];
        cpu.load_rom(&rom);
        cpu.run_cycle().unwrap();
        cpu.run_cycle().unwrap();
        assert_eq!(cpu.get_sound(), 1);
        cpu.run_cycle().unwrap();
        assert_eq!(cpu.get_sound(), 0);
        cpu.run_cycle().unwrap();
        assert_eq!(cpu.get_sound(), 0);
    });
}

#[test]
fn illegal_instruction_faults_and_changes_nothing() {
    cpu_tester(&mut |cpu, _sender| {
        let rom = [0x00, 0x01, 0x80, 0x08, 0xE0, 0x00, 0xF0, 0xFF];
        cpu.load_rom(&rom);
        assert_eq!(cpu.run_cycle().unwrap_err(), Fault::IllegalInstruction(0x0001));
        assert_eq!(cpu.get_i(), 0);
    });
    cpu_tester(&mut |cpu, _sender| {
        cpu.load_rom(&[0x80, 0x08]);
        assert_eq!(cpu.run_cycle().unwrap_err(), Fault::IllegalInstruction(0x8008));
    });
    cpu_tester(&mut |cpu, _sender| {
        cpu.load_rom(&[0xE0, 0x00]);
        assert_eq!(cpu.run_cycle().unwrap_err(), Fault::IllegalInstruction(0xE000));
    });
    cpu_tester(&mut |cpu, _sender| {
        cpu.load_rom(&[0xF0, 0xFF]);
        assert_eq!(cpu.run_cycle().unwrap_err(), Fault::IllegalInstruction(0xF0FF));
    });
}

#[test]
fn return_on_empty_stack_faults() {
    cpu_tester(&mut |cpu, _sender| {
        cpu.load_rom(&[0x00, 0xEE]);
        assert_eq!(cpu.run_cycle().unwrap_err(), Fault::StackUnderflow);
    });
}

#[test]
fn seventeenth_nested_call_faults() {
    cpu_tester(&mut |cpu, _sender| {
        cpu.load_rom(&[0x22, 0x00]);
        for _ in 0..16 {
            cpu.run_cycle().unwrap();
        }
        assert_eq!(cpu.run_cycle().unwrap_err(), Fault::StackOverflow);
    });
}

#[test]
fn fetch_past_memory_faults() {
    cpu_tester(&mut |cpu, _sender| {
        cpu.load_rom(&[0x1F, 0xA0]);
        cpu.run_cycle().unwrap();
        assert_eq!(cpu.run_cycle().unwrap_err(), Fault::MemoryOutOfRange(0xFA0));
    });
}

#[test]
fn key_test_on_large_register_faults() {
    cpu_tester(&mut |cpu, _sender| {
        cpu.load_rom(&[0x60, 0x10, 0xE0, 0x9E]);
        cpu.run_cycle().unwrap();
        assert_eq!(cpu.run_cycle().unwrap_err(), Fault::KeyOutOfRange(0x10));
    });
}

#[test]
fn draw_past_right_edge_faults() {
    cpu_tester(&mut |cpu, _sender| {
        cpu.load_rom(&[0x60, 0x40, 0xD0, 0x01]);
        cpu.run_cycle().unwrap();
        assert_eq!(cpu.run_cycle().unwrap_err(), Fault::ColumnOutOfRange(0x40));
    });
}

#[test]
fn store_past_memory_faults() {
    cpu_tester(&mut |cpu, _sender| {
        cpu.load_rom(&[0xAF, 0x9E, 0xF0, 0x33, 0xF1, 0x55, 0xF0, 0x55]);
        cpu.run_cycle().unwrap();
        assert_eq!(cpu.run_cycle().unwrap_err(), Fault::MemoryOutOfRange(0xF9E));
    });
    cpu_tester(&mut |cpu, _sender| {
        cpu.load_rom(&[0xAF, 0x9F, 0xF1, 0x55]);
        cpu.run_cycle().unwrap();
        assert_eq!(cpu.run_cycle().unwrap_err(), Fault::MemoryOutOfRange(0xF9F));
    });
}

#[test]
fn draw_past_memory_faults() {
    cpu_tester(&mut |cpu, _sender| {
        cpu.load_rom(&[0xAF, 0x9F, 0xD0, 0x02]);
        cpu.run_cycle().unwrap();
        assert_eq!(cpu.run_cycle().unwrap_err(), Fault::MemoryOutOfRange(0xF9F));
    });
}

#[test]
fn sprite_at_column_sixty_continues_on_next_row() {
    cpu_tester(&mut |cpu, _sender| {
        cpu.load_rom(&[0x60, 0x3C, 0x61, 0x1F, 0xA2, 0x0A, 0xD0, 0x11, 0x00, 0x00, 0xFF, 0x00]);
        for _ in 0..4 {
            cpu.run_cycle().unwrap();
        }
        let frame = cpu.get_display();
        assert_eq!(frame[31], 0x0F);
        assert_eq!(frame[0], 0xF0u64 << 56);
        assert_eq!(cpu.get_carry(), 0);
    });
}

#[test]
fn index_add_goes_past_twelve_bits() {
    cpu_tester(&mut |cpu, _sender| {
        cpu.load_rom(&[0x60, 0xFF, 0xAF, 0xFF, 0xF0, 0x1E]);
        cpu.run_cycle().unwrap();
        cpu.run_cycle().unwrap();
        cpu.run_cycle().unwrap();
        assert_eq!(cpu.get_i(), 0x10FE);
    });
}

#[test]
fn op_trace_text() {
    cpu_tester(&mut |cpu, _sender| {
        cpu.load_rom(&[0xA1, 0x23]);
        assert_eq!(cpu.run_cycle().unwrap().to_string(), "0xA123");
    });
}
