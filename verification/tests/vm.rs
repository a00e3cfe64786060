use bonsai::cell::Cell;
use bonsai::geometry::I3;
use bonsai::isa::{decode, Instr, Op};
use bonsai::occupancy::{Occupancy, TagIndex};
use bonsai::terrain::{Block, Grid};
use bonsai::vm::{execute, step_code, StateDelta};

struct Bench {
    occ: Occupancy,
    grid: Grid,
    tags: TagIndex,
}

fn bench() -> Bench {
    Bench {
        occ: Occupancy::new(),
        grid: Grid::filled(5, 5, 5, Block::Air).unwrap(),
        tags: TagIndex::new(),
    }
}

fn cell_running(inst: u8) -> Cell {
    let mut c = Cell::new(1, I3(2, 2, 2), 100);
    c.prog[0] = inst;
    c.regs = [0x12, 0x34, 0x56, 0x78];
    c
}

fn run(c: &mut Cell, b: &Bench) -> StateDelta {
    step_code(c, &b.occ, &b.grid, &b.tags)
}

#[test]
fn new_cell_is_blank() {
    let c = Cell::new(9, I3(1, 2, 3), 77);
    assert_eq!(c.id, 9);
    assert_eq!(c.pi, I3(1, 2, 3));
    assert_eq!(c.epsilon, 77);
    assert_eq!(c.decay, 0);
    assert_eq!(c.prog, [0u8; 256]);
    assert_eq!(c.regs, [0u8; 4]);
    assert_eq!(c.ip, 0);
    assert!(!c.ext && !c.result);
}

#[test]
fn every_byte_decodes_and_runs() {
    let b = bench();
    for inst in 0..=255u8 {
        let i = decode(inst);
        assert_eq!(i.dst, inst & 3);
        assert_eq!(i.src, (inst >> 2) & 3);
        assert_eq!(i.imm, (inst >> 2) & 0xf);
        for ext in [false, true] {
            for result in [false, true] {
                let mut c = cell_running(inst);
                c.ext = ext;
                c.result = result;
                let _ = run(&mut c, &b);
                assert!(c.ip < 128);
                assert_eq!(c.decay, 0);
                assert_eq!(c.id, 1);
                assert_eq!(c.pi, I3(2, 2, 2));
            }
        }
    }
}

#[test]
fn decode_table() {
    let table: [(u8, u8, Op); 27] = [
        (0x00, 0x03, Op::Divide),
        (0x04, 0x07, Op::Check),
        (0x08, 0x0b, Op::Share),
        (0x0c, 0x13, Op::Force),
        (0x14, 0x1b, Op::Fuse),
        (0x1c, 0x1f, Op::Reserved),
        (0x20, 0x20, Op::Drain),
        (0x21, 0x21, Op::CloneBank),
        (0x22, 0x22, Op::Reduce),
        (0x23, 0x23, Op::Flip),
        (0x24, 0x24, Op::GetAlpha),
        (0x25, 0x25, Op::GetPhi),
        (0x26, 0x2f, Op::Reserved),
        (0x30, 0x3e, Op::Jmpa),
        (0x3f, 0x3f, Op::Jmpr),
        (0x40, 0x7f, Op::Movi),
        (0x80, 0x83, Op::Inspect),
        (0x84, 0x87, Op::Not),
        (0x88, 0x8b, Op::Swap),
        (0x8c, 0x8f, Op::Reserved),
        (0x90, 0x9f, Op::And),
        (0xa0, 0xaf, Op::Or),
        (0xb0, 0xbf, Op::Add),
        (0xc0, 0xcf, Op::Mov),
        (0xd0, 0xdf, Op::St),
        (0xe0, 0xef, Op::Ld),
        (0xf0, 0xff, Op::Nearby),
    ];
    let mut seen = 0u32;
    for (lo, hi, op) in table {
        for inst in lo..=hi {
            assert_eq!(decode(inst).op, op, "byte {:#x}", inst);
            seen += 1;
        }
    }
    assert_eq!(seen, 256);
}

#[test]
fn starving_cell_counts_up_and_dies_at_the_maximum() {
    let b = bench();
    let mut c = cell_running(0x40);
    c.epsilon = 0;
    c.decay = 0;
    for k in 1..=254u8 {
        assert_eq!(run(&mut c, &b), StateDelta::NoChange);
        assert_eq!(c.decay, k);
        assert_eq!(c.ip, 0);
    }
    assert_eq!(run(&mut c, &b), StateDelta::KillSelf);
    assert_eq!(c.decay, 255);
    assert_eq!(run(&mut c, &b), StateDelta::KillSelf);
    assert_eq!(c.decay, 255);
    assert_eq!(c.regs, [0x12, 0x34, 0x56, 0x78]);
}

#[test]
fn running_costs_one_or_two_and_resets_decay() {
    let b = bench();
    let mut c = cell_running(0x1c);
    c.decay = 9;
    assert_eq!(run(&mut c, &b), StateDelta::NoChange);
    assert_eq!((c.epsilon, c.decay, c.ip), (99, 0, 1));
    let mut c = cell_running(0x1c);
    c.ext = true;
    run(&mut c, &b);
    assert_eq!(c.epsilon, 98);
    let mut c = cell_running(0x1c);
    c.ext = true;
    c.epsilon = 1;
    run(&mut c, &b);
    assert_eq!(c.epsilon, 0);
}

#[test]
fn reserved_bytes_only_move_on() {
    let b = bench();
    for inst in [0x1cu8, 0x1f, 0x26, 0x2f, 0x8c, 0x8f] {
        let mut c = cell_running(inst);
        let before = c;
        assert_eq!(run(&mut c, &b), StateDelta::NoChange);
        let mut want = before;
        want.epsilon = 99;
        want.ip = 1;
        assert_eq!(c, want);
    }
}

#[test]
fn ip_wraps_around_the_first_bank() {
    let b = bench();
    let mut c = cell_running(0);
    c.prog[127] = 0x1c;
    c.ip = 127;
    run(&mut c, &b);
    assert_eq!(c.ip, 0);
}

#[test]
fn divide_scenario() {
    let mut b = bench();
    b.occ.insert(I3(2, 2, 2));
    let mut c = cell_running(0x03);
    c.ext = true;
    c.epsilon = 10;
    for k in 0..128usize {
        c.prog[128 + k] = (k as u8) ^ 0xa5;
    }
    let before = c;
    let delta = run(&mut c, &b);
    assert_eq!(c.epsilon, 8);
    assert!(c.result);
    assert!(!c.ext);
    assert_eq!(c.ip, 1);
    assert_eq!(&c.prog[..128], &before.prog[..128]);
    assert_eq!(&c.prog[128..], &[0u8; 128][..]);
    match delta {
        StateDelta::AddCell(child) => {
            assert_eq!(child.id, 0);
            assert_eq!(child.pi, I3(1, 1, 1));
            assert_eq!(child.epsilon, 4);
            assert_eq!(child.decay, 0);
            assert_eq!(&child.prog[..128], &before.prog[128..]);
            assert_eq!(&child.prog[128..], &[0u8; 128][..]);
            assert_eq!(child.regs, [0u8; 4]);
            assert_eq!(child.ip, 0);
            assert!(!child.ext && !child.result);
        }
        other => panic!("no division: {:?}", other),
    }
}

#[test]
fn divide_gives_the_child_the_larger_half() {
    let b = bench();
    let mut c = cell_running(0x03);
    c.ext = true;
    c.epsilon = 9;
    match run(&mut c, &b) {
        StateDelta::AddCell(child) => assert_eq!(child.epsilon, 4),
        other => panic!("no division: {:?}", other),
    }
    assert_eq!(c.epsilon, 7);
    let mut c = cell_running(0x03);
    c.ext = true;
    c.epsilon = 2;
    match run(&mut c, &b) {
        StateDelta::AddCell(child) => assert_eq!(child.epsilon, 0),
        other => panic!("no division: {:?}", other),
    }
}

#[test]
fn divide_needs_ext_terrain_and_room() {
    let mut b = bench();
    let mut c = cell_running(0x03);
    c.result = true;
    assert_eq!(run(&mut c, &b), StateDelta::NoChange);
    assert!(!c.result && !c.ext);
    assert_eq!(c.ip, 1);

    let mut c = cell_running(0x01);
    c.ext = true;
    assert_eq!(run(&mut c, &b), StateDelta::NoChange);
    assert!(!c.result && !c.ext);

    b.grid.set(I3(3, 3, 3), Block::Soil);
    let mut c = cell_running(0x01);
    c.ext = true;
    match run(&mut c, &b) {
        StateDelta::AddCell(child) => assert_eq!(child.pi, I3(3, 3, 3)),
        other => panic!("no division: {:?}", other),
    }
    b.occ.insert(I3(3, 3, 3));
    let mut c = cell_running(0x01);
    c.ext = true;
    c.prog[130] = 1;
    assert_eq!(run(&mut c, &b), StateDelta::NoChange);
    assert_eq!(c.prog[130], 1);
}

#[test]
fn check_tests_the_terrain_under_the_cell() {
    let mut b = bench();
    b.grid.set(I3(2, 2, 2), Block::Water);
    let mut c = cell_running(0x06);
    run(&mut c, &b);
    assert!(c.result);
    let mut c = cell_running(0x07);
    c.result = true;
    run(&mut c, &b);
    assert!(!c.result);
}

#[test]
fn share_force_and_fuse_find_neighbours_by_tag() {
    let mut b = bench();
    b.tags.insert(I3(3, 2, 2), 0x12, 77);
    b.tags.insert(I3(1, 2, 2), 0x34, 78);
    // share, dst 0: tag 0x12
    let mut c = cell_running(0x08);
    assert_eq!(run(&mut c, &b), StateDelta::SendEps(77, true));
    assert!(c.result);
    // the source operand of bytes 0x08 to 0x0b is always even
    let mut c = cell_running(0x09);
    assert_eq!(run(&mut c, &b), StateDelta::SendEps(78, true));
    let mut c = cell_running(0x0a);
    c.result = true;
    assert_eq!(run(&mut c, &b), StateDelta::NoChange);
    assert!(!c.result);
    // force: 0x0c to 0x0f have an odd source operand, 0x10 to 0x13 an even one
    let mut c = cell_running(0x0c);
    assert_eq!(run(&mut c, &b), StateDelta::Repul(77, false));
    assert!(c.result && !c.ext);
    let mut c = cell_running(0x11);
    assert_eq!(run(&mut c, &b), StateDelta::Repul(78, true));
    let mut c = cell_running(0x12);
    assert_eq!(run(&mut c, &b), StateDelta::NoChange);
    // fuse
    let mut c = cell_running(0x14);
    assert_eq!(run(&mut c, &b), StateDelta::Assimilate(77));
    assert!(c.result && c.ext);
    assert_eq!(c.ip, 1);
    let mut c = cell_running(0x1b);
    c.result = true;
    assert_eq!(run(&mut c, &b), StateDelta::NoChange);
    assert!(!c.result && !c.ext);
}

#[test]
fn drain_clone_reduce_flip() {
    let b = bench();
    let mut c = cell_running(0x20);
    run(&mut c, &b);
    assert_eq!(c.epsilon, 0);
    assert_eq!(c.ip, 1);

    let mut c = cell_running(0x21);
    for k in 0..128usize {
        c.prog[k] = c.prog[k].wrapping_add(k as u8);
        c.prog[128 + k] = 0xee;
    }
    let before = c;
    run(&mut c, &b);
    assert!(c.ext);
    assert_eq!(&c.prog[..128], &before.prog[..128]);
    assert_eq!(&c.prog[128..], &before.prog[..128]);

    let mut c = before;
    c.prog[0] = 0x22;
    c.ext = true;
    run(&mut c, &b);
    assert!(!c.ext);
    assert_eq!(&c.prog[1..128], &before.prog[1..128]);
    assert_eq!(&c.prog[128..], &[0u8; 128][..]);

    let mut c = cell_running(0x23);
    run(&mut c, &b);
    assert!(c.result);
    c.ip = 0;
    run(&mut c, &b);
    assert!(!c.result);
}

#[test]
fn get_alpha_feeds_in_water_only() {
    let mut b = bench();
    let mut c = cell_running(0x24);
    c.result = true;
    run(&mut c, &b);
    assert_eq!(c.epsilon, 99);
    assert!(!c.result);
    b.grid.set(I3(2, 2, 2), Block::Water);
    let mut c = cell_running(0x24);
    run(&mut c, &b);
    assert_eq!(c.epsilon, 115);
    assert!(c.result);
    let mut c = cell_running(0x24);
    c.epsilon = 241;
    run(&mut c, &b);
    assert_eq!(c.epsilon, 255);
    let mut c = cell_running(0x24);
    c.epsilon = 240;
    run(&mut c, &b);
    assert_eq!(c.epsilon, 255);
    let mut c = cell_running(0x24);
    c.epsilon = 239;
    run(&mut c, &b);
    assert_eq!(c.epsilon, 254);
}

#[test]
fn get_phi_asks_for_light() {
    let b = bench();
    let mut c = cell_running(0x25);
    assert_eq!(run(&mut c, &b), StateDelta::BlockLight);
    assert_eq!(c.ip, 1);
}

#[test]
fn jumps() {
    let b = bench();
    // jmpa, even source operand: always taken
    let mut c = cell_running(0x30);
    c.regs[0] = 0x45;
    assert_eq!(run(&mut c, &b), StateDelta::NoChange);
    assert_eq!(c.ip, 0x45);
    // the address is taken around the first bank
    let mut c = cell_running(0x31);
    c.regs[1] = 0xc5;
    run(&mut c, &b);
    assert_eq!(c.ip, 0x45);
    // odd source operand: taken on the condition flag only
    let mut c = cell_running(0x34);
    c.regs[0] = 0x45;
    run(&mut c, &b);
    assert_eq!(c.ip, 1);
    let mut c = cell_running(0x34);
    c.regs[0] = 0x45;
    c.result = true;
    run(&mut c, &b);
    assert_eq!(c.ip, 0x45);
    // jmpr is byte 0x3f: source operand 3, destination 3
    let mut c = cell_running(0);
    c.prog[100] = 0x3f;
    c.ip = 100;
    c.regs[3] = 200;
    run(&mut c, &b);
    assert_eq!(c.ip, 101);
    c.ip = 100;
    c.result = true;
    run(&mut c, &b);
    assert_eq!(c.ip, 44);
    assert!(c.result);
}

#[test]
fn jmpc_looks_for_a_byte() {
    let b = bench();
    let i = Instr { op: Op::Jmpc, dst: 2, src: 0, imm: 0 };
    let mut c = Cell::new(1, I3(2, 2, 2), 50);
    c.ip = 120;
    c.regs[2] = 0xaa;
    c.prog[5] = 0xaa;
    c.prog[120] = 0xaa;
    c.prog[200] = 0xaa;
    assert_eq!(execute(&mut c, i, &b.occ, &b.grid, &b.tags), StateDelta::NoChange);
    assert_eq!(c.ip, 5);
    assert!(c.result);
    // From 5 on, the next match is the byte at 120.
    execute(&mut c, i, &b.occ, &b.grid, &b.tags);
    assert_eq!(c.ip, 120);
    // The scan leaves out the byte under the instruction pointer.
    c.prog[5] = 0;
    c.result = true;
    execute(&mut c, i, &b.occ, &b.grid, &b.tags);
    assert_eq!(c.ip, 120);
    assert!(!c.result);
    // Not taken: the pointer moves on.
    let i = Instr { op: Op::Jmpc, dst: 2, src: 1, imm: 0 };
    execute(&mut c, i, &b.occ, &b.grid, &b.tags);
    assert_eq!(c.ip, 121);
}

#[test]
fn register_instructions() {
    let b = bench();
    // movi: 01ii iidd
    let mut c = cell_running(0x40 | (0xb << 2) | 2);
    run(&mut c, &b);
    assert_eq!(c.regs, [0x12, 0x34, 0x0b, 0x78]);
    assert_eq!(c.ip, 1);
    // inspect reads the energy that is left after paying
    let mut c = cell_running(0x81);
    run(&mut c, &b);
    assert_eq!(c.regs, [0x12, 99, 0x56, 0x78]);
    // not
    let mut c = cell_running(0x84);
    run(&mut c, &b);
    assert_eq!(c.regs, [0xed, 0x34, 0x56, 0x78]);
    // swap
    let mut c = cell_running(0x8b);
    run(&mut c, &b);
    assert_eq!(c.regs, [0x12, 0x34, 0x56, 0x87]);
    // and: 1001 ssdd
    let mut c = cell_running(0x90 | (1 << 2) | 2);
    run(&mut c, &b);
    assert_eq!(c.regs, [0x12, 0x34, 0x56 & 0x34, 0x78]);
    // or
    let mut c = cell_running(0xa0 | (3 << 2) | 0);
    run(&mut c, &b);
    assert_eq!(c.regs, [0x12 | 0x78, 0x34, 0x56, 0x78]);
    // mov
    let mut c = cell_running(0xc0 | (2 << 2) | 1);
    run(&mut c, &b);
    assert_eq!(c.regs, [0x12, 0x56, 0x56, 0x78]);
}

#[test]
fn add_keeps_eight_bits_and_the_carry() {
    let b = bench();
    let mut c = cell_running(0xb0 | (1 << 2) | 0);
    c.result = true;
    run(&mut c, &b);
    assert_eq!(c.regs[0], 0x46);
    assert!(!c.result);
    let mut c = cell_running(0xb0 | (1 << 2) | 0);
    c.regs[0] = 0xf0;
    c.regs[1] = 0x20;
    run(&mut c, &b);
    assert_eq!(c.regs[0], 0x10);
    assert!(c.result);
    let mut c = cell_running(0xb0 | (2 << 2) | 2);
    c.regs[2] = 0x80;
    run(&mut c, &b);
    assert_eq!(c.regs[2], 0);
    assert!(c.result);
    let mut c = cell_running(0xb0 | (3 << 2) | 2);
    c.regs[2] = 0xff;
    c.regs[3] = 0;
    run(&mut c, &b);
    assert_eq!(c.regs[2], 0xff);
    assert!(!c.result);
}

#[test]
fn store_and_load() {
    let b = bench();
    // st: store regs[src] at the address in regs[dst]
    let mut c = cell_running(0xd0 | (1 << 2) | 0);
    c.regs[0] = 0x85;
    run(&mut c, &b);
    assert_eq!(c.prog[0x05], 0x34);
    assert_eq!(c.prog[0x85], 0);
    let mut c = cell_running(0xd0 | (1 << 2) | 0);
    c.regs[0] = 0x85;
    c.ext = true;
    run(&mut c, &b);
    assert_eq!(c.prog[0x05], 0);
    assert_eq!(c.prog[0x85], 0x34);
    // ld: load regs[dst] from the address in regs[src]
    let mut c = cell_running(0xe0 | (2 << 2) | 3);
    c.regs[2] = 0x90;
    c.prog[0x10] = 0xaa;
    c.prog[0x90] = 0xbb;
    run(&mut c, &b);
    assert_eq!(c.regs[3], 0xaa);
    let mut c = cell_running(0xe0 | (2 << 2) | 3);
    c.regs[2] = 0x90;
    c.prog[0x10] = 0xaa;
    c.prog[0x90] = 0xbb;
    c.ext = true;
    run(&mut c, &b);
    assert_eq!(c.regs[3], 0xbb);
}

#[test]
fn nearby_reads_a_tag_from_other_terrain() {
    let mut b = bench();
    b.grid.set(I3(1, 1, 1), Block::Soil);
    b.tags.insert(I3(1, 1, 1), 0x55, 5);
    b.tags.insert(I3(3, 3, 3), 0x66, 6);
    // 1111 ssdd: the source names Soil, so the cell in Soil is passed over
    let mut c = cell_running(0xf0 | (1 << 2) | 2);
    assert_eq!(run(&mut c, &b), StateDelta::NoChange);
    assert_eq!(c.regs[2], 0x66);
    assert!(c.result);
    let mut c = cell_running(0xf0 | (3 << 2) | 2);
    run(&mut c, &b);
    assert_eq!(c.regs[2], 0x55);
    assert!(c.result);
    let mut c = cell_running(0xf0 | (0 << 2) | 2);
    run(&mut c, &b);
    assert_eq!(c.regs[2], 0x55);
    b.tags.remove(I3(3, 3, 3));
    let mut c = cell_running(0xf0 | (1 << 2) | 2);
    c.result = true;
    run(&mut c, &b);
    assert_eq!(c.regs[2], 0x56);
    assert!(!c.result);
}

#[test]
fn fetch_stays_in_the_first_bank() {
    let b = bench();
    let mut c = cell_running(0x20);
    c.prog[128] = 0x23;
    c.ip = 128;
    run(&mut c, &b);
    assert_eq!(c.epsilon, 0);
    assert_eq!(c.ip, 1);
}
