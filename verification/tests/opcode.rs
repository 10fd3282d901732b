use chip8::opcode::{Nibble, Opcode};

#[test]
fn opcode_index() {
    let opcode = Opcode::new(0xABCD);

    assert_eq!(opcode.index(Nibble::A), 0xA);
    assert_eq!(opcode.index(Nibble::B), 0xB);
    assert_eq!(opcode.index(Nibble::C), 0xC);
    assert_eq!(opcode.index(Nibble::D), 0xD);
}

#[test]
fn opcode_get() {
    let opcode = Opcode::new(0xABCD);

    assert_eq!(0xA000, opcode.get(Nibble::A));
    assert_eq!(0x0B00, opcode.get(Nibble::B));
    assert_eq!(0x00C0, opcode.get(Nibble::C));
    assert_eq!(0x000D, opcode.get(Nibble::D));
    assert_eq!(0xAB00, opcode.get(Nibble::AB));
    assert_eq!(0x0BC0, opcode.get(Nibble::BC));
    assert_eq!(0x00CD, opcode.get(Nibble::CD));
    assert_eq!(0xABC0, opcode.get(Nibble::ABC));
    assert_eq!(0x0BCD, opcode.get(Nibble::BCD));
    assert_eq!(0xABCD, opcode.get(Nibble::ABCD));
}

#[test]
fn opcode_groupings_recombine() {
    for &w in &[0x0000u16, 0x1234, 0xABCD, 0xFFFF, 0x8F01] {
        let opcode = Opcode::new(w);
        assert_eq!(opcode.get(Nibble::ABCD), w);
        assert_eq!(opcode.get(Nibble::AB) | opcode.get(Nibble::CD), w);
        assert_eq!(opcode.get(Nibble::A) | opcode.get(Nibble::BCD), w);
        assert_eq!(opcode.get(Nibble::ABC) | opcode.get(Nibble::D), w);
        assert_eq!(
            opcode.get(Nibble::A)
                | opcode.get(Nibble::B)
                | opcode.get(Nibble::C)
                | opcode.get(Nibble::D),
            w
        );
    }
}
