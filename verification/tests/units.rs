use minicomp::ast::{CompileError, Data, Instruction, Location};
use minicomp::emitter::{data_to_gas, instr_to_str, program_to_gas, reg_to_gas};
use minicomp::locations::LocManager;
use minicomp::symbols::SymbolTable;
use minicomp::tokenizer::consume_while;

#[test]
fn manager_hands_out_five_registers_then_fails() {
    let mut m = LocManager::new();
    for i in 0..5 {
        assert_eq!(m.request(), Some(Location::Register(i)));
    }
    // The sixth request on a full pool yields nothing; the code generator
    // turns that into OutOfRegistersError at the call site.
    assert_eq!(m.request(), None);
}

#[test]
fn manager_reuses_the_lowest_freed_register() {
    let mut m = LocManager::new();
    for i in 0..5 {
        assert_eq!(m.request(), Some(Location::Register(i)));
    }
    assert_eq!(m.free(Location::Register(2)), Ok(()));
    assert_eq!(m.free(Location::Register(1)), Ok(()));
    assert_eq!(m.request(), Some(Location::Register(1)));
    assert_eq!(m.request(), Some(Location::Register(2)));
    assert_eq!(m.request(), None);
}

#[test]
fn manager_rejects_freeing_twice_in_a_row() {
    let mut m = LocManager::new();
    assert_eq!(m.request(), Some(Location::Register(0)));
    assert_eq!(m.free(Location::Register(0)), Ok(()));
    assert_eq!(
        m.free(Location::Register(0)),
        Err(CompileError::DoubleFreeError)
    );
}

#[test]
fn manager_rejects_freeing_a_never_held_register() {
    let mut m = LocManager::new();
    assert_eq!(
        m.free(Location::Register(3)),
        Err(CompileError::DoubleFreeError)
    );
}

#[test]
fn manager_is_free_tracks_requests() {
    let mut m = LocManager::new();
    assert!(m.is_free(Location::Register(0)));
    assert_eq!(m.request(), Some(Location::Register(0)));
    assert!(!m.is_free(Location::Register(0)));
    assert!(m.is_free(Location::Register(1)));
}

#[test]
fn symbol_table_saves_and_looks_up() {
    let mut t = SymbolTable::new();
    let x = "x".to_string();
    let y = "y".to_string();
    assert_eq!(t.lookup(&x), None);
    t.save(&x, Data::Constant(7));
    assert_eq!(t.lookup(&x), Some(Data::Constant(7)));
    assert_eq!(t.lookup(&y), None);
    t.save(&y, Data::Loc(Location::StackIndex(0)));
    t.save(&x, Data::Loc(Location::StackIndex(1)));
    assert_eq!(t.lookup(&x), Some(Data::Loc(Location::StackIndex(1))));
    assert_eq!(t.lookup(&y), Some(Data::Loc(Location::StackIndex(0))));
}

#[test]
fn consume_while_takes_the_maximal_run() {
    let src: Vec<char> = "ab12+c".chars().collect();
    let (run, end) = consume_while(&src, 0, |c| c.is_ascii_alphanumeric());
    assert_eq!(run, vec!['a', 'b', '1', '2']);
    assert_eq!(end, 4);
    let (empty, same) = consume_while(&src, 4, |c| c.is_ascii_alphanumeric());
    assert_eq!(empty, vec![]);
    assert_eq!(same, 4);
}

#[test]
fn registers_render_through_the_fixed_table() {
    assert_eq!(reg_to_gas(&Location::Register(0)), "%rbx");
    assert_eq!(reg_to_gas(&Location::Register(1)), "%rcx");
    assert_eq!(reg_to_gas(&Location::Register(2)), "%rdx");
    assert_eq!(reg_to_gas(&Location::Register(3)), "%r12");
    assert_eq!(reg_to_gas(&Location::Register(4)), "%r13");
    assert_eq!(reg_to_gas(&Location::Register(5)), "%r14");
}

#[test]
fn stack_slots_render_as_byte_offsets() {
    assert_eq!(reg_to_gas(&Location::StackIndex(0)), "0(%rsp)");
    assert_eq!(reg_to_gas(&Location::StackIndex(1)), "8(%rsp)");
    assert_eq!(reg_to_gas(&Location::StackIndex(13)), "104(%rsp)");
}

#[test]
fn constants_render_with_dollar_and_sign() {
    assert_eq!(data_to_gas(&Data::Constant(0)), "$0");
    assert_eq!(data_to_gas(&Data::Constant(42)), "$42");
    assert_eq!(data_to_gas(&Data::Constant(-5)), "$-5");
    assert_eq!(data_to_gas(&Data::Constant(i32::MAX)), "$2147483647");
    assert_eq!(data_to_gas(&Data::Constant(i32::MIN)), "$-2147483648");
}

#[test]
fn each_instruction_renders_its_line() {
    assert_eq!(
        instr_to_str(&Instruction::Add {
            source: Data::Constant(1),
            dest: Location::Register(0),
        }),
        "addq $1, %rbx"
    );
    assert_eq!(
        instr_to_str(&Instruction::Mul {
            factor1: Data::Constant(2),
            factor2: Data::Loc(Location::StackIndex(1)),
        }),
        "imulq $2, 8(%rsp)"
    );
    assert_eq!(
        instr_to_str(&Instruction::Move {
            source: Data::Loc(Location::Register(1)),
            dest: Location::StackIndex(0),
        }),
        "movq %rcx, 0(%rsp)"
    );
    assert_eq!(
        instr_to_str(&Instruction::Push {
            source: Data::Loc(Location::Register(4)),
        }),
        "pushq %r13"
    );
}

#[test]
fn empty_program_renders_prologue_and_ret() {
    let instrs: Vec<Instruction> = vec![];
    assert_eq!(
        program_to_gas(&instrs),
        ".global _start\n.text\n_start:\nret\n"
    );
}
