use root_cause_analysis::assembler::{operand, operands, ArraySize, MemoryLocation, Operand};
use root_cause_analysis::register::{Register, Register32, Register64, Register8High};

fn parses_to(result: Result<(String, Operand), ()>, expected: Operand) {
    assert_eq!(result, Ok((String::new(), expected)));
}

#[test]
fn test_operands() {
    assert_eq!(operands(""), Ok((String::new(), vec![])));
    assert_eq!(
        operands("%eax, -0x127c(%rbp)"),
        Ok((
            String::new(),
            vec![
                Operand::Register(Register32::Eax.into()),
                Operand::Memory(MemoryLocation {
                    offset: Some(-0x127c),
                    base: Some(Register64::Rbp.into()),
                    index: None,
                }),
            ]
        ))
    );
}

#[test]
fn test_memory_operand() {
    assert!(operand("(%ecx,2)").is_err());
    assert!(operand("(%ebx,%ecx,-1)").is_err());
    assert!(operand("(%ebx,%ecx,3)").is_err());
    assert!(operand("(%ebx,%ecx,0x8)").is_err());

    parses_to(
        operand("0x42(%rsi,%ebx,4)"),
        Operand::Memory(MemoryLocation {
            offset: Some(0x42),
            base: Some(Register64::Rsi.into()),
            index: Some((Register32::Ebx.into(), ArraySize::Size4Byte)),
        }),
    );
    parses_to(
        operand("(%rax, %rcx, 8)"),
        Operand::Memory(MemoryLocation {
            offset: None,
            base: Some(Register64::Rax.into()),
            index: Some((Register64::Rcx.into(), ArraySize::Size8Byte)),
        }),
    );
    parses_to(
        operand("-0x127c(%rbp)"),
        Operand::Memory(MemoryLocation {
            offset: Some(-0x127c),
            base: Some(Register64::Rbp.into()),
            index: None,
        }),
    );
    parses_to(
        operand("(%esi,%rax)"),
        Operand::Memory(MemoryLocation {
            offset: None,
            base: Some(Register32::Esi.into()),
            index: Some((Register64::Rax.into(), ArraySize::Size1Byte)),
        }),
    );
    parses_to(
        operand("0x1337"),
        Operand::Memory(MemoryLocation { offset: Some(0x1337), base: None, index: None }),
    );
    parses_to(
        operand("1337()"),
        Operand::Memory(MemoryLocation { offset: Some(1337), base: None, index: None }),
    );
    parses_to(
        operand("-0x42()"),
        Operand::Memory(MemoryLocation { offset: Some(-0x42), base: None, index: None }),
    );
}

#[test]
fn test_register_operand() {
    assert!(operand("%abc").is_err());
    assert!(operand("%0xrax").is_err());

    parses_to(operand("%rax"), Operand::Register(Register64::Rax.into()));
    parses_to(operand("%ah"), Operand::Register(Register8High::Ah.into()));
}

#[test]
fn test_immediate_operand() {
    assert!(operand("$+1").is_err());
    assert!(operand("$--1").is_err());

    parses_to(operand("$0x42"), Operand::Immediate(0x42));
    parses_to(operand("$-1337"), Operand::Immediate(-1337isize as usize));
}

#[test]
fn operands_stop_before_a_dangling_comma() {
    assert_eq!(
        operands("%rax,"),
        Ok((",".to_string(), vec![Operand::Register(Register::Register64(Register64::Rax))]))
    );
}

#[test]
fn operand_leaves_the_rest() {
    assert_eq!(
        operand("  $5, %rbx"),
        Ok((", %rbx".to_string(), Operand::Immediate(5)))
    );
}
