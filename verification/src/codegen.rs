//! Code generation: each statement's expression is lowered to a linear
//! instruction sequence with a fresh register pool, and the statement then
//! stores the resulting operand — a `Push` onto a fresh stack slot the
//! first time an identifier is assigned, a `Move` into its existing slot on
//! reassignment.

use vstd::prelude::*;

use crate::ast::{statements_view, CompileError, Data, Expr, ExprV, Instruction, Location,
    Statement, StatementV};
use crate::locations::{all_free_regs, spec_free, spec_request, LocManager};
use crate::symbols::SymbolTable;

verus! {

/// Release the register an operand occupies, if any; constants and stack
/// slots occupy none.
pub open spec fn spec_free_data(regs: Seq<bool>, d: Data) -> Result<Seq<bool>, CompileError> {
    match d {
        Data::Loc(Location::Register(n)) => spec_free(regs, n as int),
        _ => Ok(regs),
    }
}

/// What lowering an expression yields: the operand holding its value, the
/// instructions computing it (left operand's first, then the right's), and
/// the register pool afterwards.
///
/// A `BinaryExpr` lowers both operands, takes one fresh register `R`, moves
/// the right operand there, then adds the left operand into `R` for `+`, or
/// multiplies the two original operands for `*` — the multiply primitive
/// has a fixed destination, which the extra `Move` from register `0` into
/// `R` afterwards compensates for. Both operands' registers are released
/// before the operator instruction is appended. Division (and the
/// never-parsed subtraction) is not lowered: `UnsupportedOperationError`.
pub open spec fn spec_process_expr(
    e: ExprV,
    regs: Seq<bool>,
    table: Map<Seq<char>, Data>,
) -> Result<(Data, Seq<Instruction>, Seq<bool>), CompileError>
    decreases e,
{
    match e {
        ExprV::Integer(v) => Ok((Data::Constant(v as i32), Seq::empty(), regs)),
        ExprV::Identifier(name) => if table.contains_key(name) {
            Ok((table[name], Seq::empty(), regs))
        } else {
            Err(CompileError::UnknownIdentifierError)
        },
        ExprV::BinaryExpr(l, op, r) => match spec_process_expr(*l, regs, table) {
            Err(e1) => Err(e1),
            Ok((dl, il, regs1)) => match spec_process_expr(*r, regs1, table) {
                Err(e2) => Err(e2),
                Ok((dr, ir, regs2)) => match spec_request(regs2) {
                    None => Err(CompileError::OutOfRegistersError),
                    Some((fi, regs3)) => if !(op == crate::ast::Op::Add || op
                        == crate::ast::Op::Mul) {
                        Err(CompileError::UnsupportedOperationError)
                    } else {
                        let dest = Location::Register(fi);
                        let op_instr = if op == crate::ast::Op::Add {
                            Instruction::Add { source: dl, dest }
                        } else {
                            Instruction::Mul { factor1: dl, factor2: dr }
                        };
                        match spec_free_data(regs3, dl) {
                            Err(e3) => Err(e3),
                            Ok(regs4) => match spec_free_data(regs4, dr) {
                                Err(e4) => Err(e4),
                                Ok(regs5) => {
                                    let tail = if op == crate::ast::Op::Mul {
                                        seq![
                                            Instruction::Move {
                                                source: Data::Loc(Location::Register(0)),
                                                dest,
                                            },
                                        ]
                                    } else {
                                        Seq::empty()
                                    };
                                    Ok(
                                        (
                                            Data::Loc(dest),
                                            il + ir + seq![
                                                Instruction::Move { source: dr, dest },
                                                op_instr,
                                            ] + tail,
                                            regs5,
                                        ),
                                    )
                                },
                            },
                        }
                    },
                },
            },
        },
    }
}

/// Lower an expression with the given register pool, resolving identifiers
/// through the symbol table.
pub fn process_expr(e: &Expr, loc_manager: &mut LocManager, table: &SymbolTable) -> (r: Result<
    (Data, Vec<Instruction>),
    CompileError,
>)
    requires
        table.wf(),
    ensures
        match r {
            Ok((d, instrs)) => spec_process_expr(e@, old(loc_manager)@, table@) == Ok::<
                (Data, Seq<Instruction>, Seq<bool>),
                CompileError,
            >((d, instrs@, final(loc_manager)@)),
            Err(er) => spec_process_expr(e@, old(loc_manager)@, table@) == Err::<
                (Data, Seq<Instruction>, Seq<bool>),
                CompileError,
            >(er),
        },
    decreases *e,
{
    match e {
        Expr::Integer(value) => Ok((Data::Constant(*value), Vec::new())),
        Expr::Identifier(name) => match table.lookup(name) {
            Some(d) => Ok((d, Vec::new())),
            None => Err(CompileError::UnknownIdentifierError),
        },
        Expr::BinaryExpr(l, op, r) => {
            let (dl, mut il) = match process_expr(&**l, loc_manager, table) {
                Ok(x) => x,
                Err(e1) => {
                    return Err(e1);
                },
            };
            let (dr, mut ir) = match process_expr(&**r, loc_manager, table) {
                Ok(x) => x,
                Err(e2) => {
                    return Err(e2);
                },
            };
            let ghost il0 = il@;
            let ghost ir0 = ir@;
            il.append(&mut ir);
            let free_register = match loc_manager.request() {
                Some(l2) => l2,
                None => {
                    return Err(CompileError::OutOfRegistersError);
                },
            };
            il.push(Instruction::Move { source: dr, dest: free_register });
            let op_is_add = matches!(op, crate::ast::Op::Add);
            let op_is_mul = matches!(op, crate::ast::Op::Mul);
            if !op_is_add && !op_is_mul {
                return Err(CompileError::UnsupportedOperationError);
            }
            let next_instr = if op_is_add {
                Instruction::Add { source: dl, dest: free_register }
            } else {
                Instruction::Mul { factor1: dl, factor2: dr }
            };
            match dl {
                Data::Loc(Location::Register(n)) => {
                    match loc_manager.free(Location::Register(n)) {
                        Ok(()) => (),
                        Err(e3) => {
                            return Err(e3);
                        },
                    }
                },
                _ => (),
            }
            match dr {
                Data::Loc(Location::Register(n)) => {
                    match loc_manager.free(Location::Register(n)) {
                        Ok(()) => (),
                        Err(e4) => {
                            return Err(e4);
                        },
                    }
                },
                _ => (),
            }
            il.push(next_instr);
            if op_is_mul {
                il.push(
                    Instruction::Move {
                        source: Data::Loc(Location::Register(0)),
                        dest: free_register,
                    },
                );
            }
            proof {
                let ghost spec_tail = if *op == crate::ast::Op::Mul {
                    seq![
                        Instruction::Move {
                            source: Data::Loc(Location::Register(0)),
                            dest: free_register,
                        },
                    ]
                } else {
                    Seq::<Instruction>::empty()
                };
                assert(il@ =~= il0 + ir0 + seq![
                    Instruction::Move { source: dr, dest: free_register },
                    next_instr,
                ] + spec_tail);
            }
            Ok((Data::Loc(free_register), il))
        },
    }
}

/// The state the generator threads through a program: the instructions
/// emitted so far, the symbol table, and the next fresh stack-slot index.
pub struct GenState {
    pub instrs: Seq<Instruction>,
    pub table: Map<Seq<char>, Data>,
    pub next_slot: int,
}

/// The generator's state invariant: the fresh-slot counter is a machine
/// index, and every symbol-table entry is a stack slot below it.
pub open spec fn table_slots_only(st: GenState) -> bool {
    &&& 0 <= st.next_slot
    &&& forall|name: Seq<char>|
        st.table.contains_key(name) ==> (#[trigger] st.table[name] matches Data::Loc(
            Location::StackIndex(i),
        ) && i < st.next_slot)
}

/// What generating code for one statement does to the generator state.
///
/// The expression is lowered with a fresh register pool and the prior
/// table, so an identifier first assigned by this very statement is still
/// unknown inside its own right-hand side. A fresh identifier then takes
/// the next stack slot and its value is pushed; a reassigned identifier's
/// slot is overwritten with a `Move`.
pub open spec fn spec_generate_statement(st: StatementV, state: GenState) -> Result<
    GenState,
    CompileError,
> {
    match st {
        StatementV::Assignment(name, e) => if !state.table.contains_key(name) {
            match spec_process_expr(e, all_free_regs(), state.table) {
                Err(er) => Err(er),
                Ok((d, instrs, _)) => Ok(
                    GenState {
                        instrs: state.instrs + instrs + seq![Instruction::Push { source: d }],
                        table: state.table.insert(
                            name,
                            Data::Loc(Location::StackIndex(state.next_slot as usize)),
                        ),
                        next_slot: state.next_slot + 1,
                    },
                ),
            }
        } else {
            match state.table[name] {
                Data::Loc(Location::StackIndex(i)) => match spec_process_expr(
                    e,
                    all_free_regs(),
                    state.table,
                ) {
                    Err(er) => Err(er),
                    Ok((d, instrs, _)) => Ok(
                        GenState {
                            instrs: state.instrs + instrs + seq![
                                Instruction::Move {
                                    source: d,
                                    dest: Location::StackIndex(i),
                                },
                            ],
                            table: state.table,
                            next_slot: state.next_slot,
                        },
                    ),
                },
                // An entry that is not a stack slot never arises: the
                // generator starts from an empty table and stores stack
                // slots only. Any value here keeps the definition total.
                _ => arbitrary(),
            }
        },
    }
}

/// Fold `spec_generate_statement` over the statements from `i` on.
pub open spec fn spec_generate_from(stmts: Seq<StatementV>, i: int, state: GenState) -> Result<
    GenState,
    CompileError,
>
    decreases stmts.len() - i,
{
    if !(0 <= i < stmts.len()) {
        Ok(state)
    } else {
        match spec_generate_statement(stmts[i], state) {
            Ok(state2) => spec_generate_from(stmts, i + 1, state2),
            Err(e) => Err(e),
        }
    }
}

/// The generator's starting state: nothing emitted, no identifiers known,
/// the first stack slot fresh.
pub open spec fn initial_gen_state() -> GenState {
    GenState { instrs: Seq::empty(), table: Map::empty(), next_slot: 0 }
}

/// What generating code for a whole program yields.
pub open spec fn spec_generate(stmts: Seq<StatementV>) -> Result<Seq<Instruction>, CompileError> {
    match spec_generate_from(stmts, 0, initial_gen_state()) {
        Ok(state) => Ok(state.instrs),
        Err(e) => Err(e),
    }
}

/// Generate the instruction sequence for a whole program. One symbol table
/// persists across all statements; each statement's expression is lowered
/// with its own fresh register pool.
pub fn generate(statements: &Vec<Statement>) -> (r: Result<Vec<Instruction>, CompileError>)
    ensures
        match r {
            Ok(instrs) => spec_generate(statements_view(statements@)) == Ok::<
                Seq<Instruction>,
                CompileError,
            >(instrs@),
            Err(er) => spec_generate(statements_view(statements@)) == Err::<
                Seq<Instruction>,
                CompileError,
            >(er),
        },
{
    let ghost sv = statements_view(statements@);
    let mut table = SymbolTable::new();
    let mut instructions: Vec<Instruction> = Vec::new();
    let mut stack_index: usize = 0;
    let n = statements.len();
    let mut i: usize = 0;
    while i < n
        invariant
            i <= n,
            n == statements@.len(),
            sv == statements_view(statements@),
            table.wf(),
            stack_index <= i,
            table_slots_only(
                GenState { instrs: instructions@, table: table@, next_slot: stack_index as int },
            ),
            spec_generate_from(
                sv,
                i as int,
                GenState { instrs: instructions@, table: table@, next_slot: stack_index as int },
            ) == spec_generate_from(sv, 0, initial_gen_state()),
        decreases n - i,
    {
        let ghost state0 = GenState {
            instrs: instructions@,
            table: table@,
            next_slot: stack_index as int,
        };
        let (name, expr): (&String, &Expr) = match &statements[i] {
            Statement::Assignment(name, expr) => (name, expr),
        };
        match table.lookup(name) {
            None => {
                let mut loc_manager = LocManager::new();
                let (source, mut instr) = match process_expr(expr, &mut loc_manager, &table) {
                    Ok(x) => x,
                    Err(e) => {
                        return Err(e);
                    },
                };
                let loc = Location::StackIndex(stack_index);
                stack_index = stack_index + 1;
                table.save(name, Data::Loc(loc));
                let ghost instr0 = instr@;
                instructions.append(&mut instr);
                instructions.push(Instruction::Push { source });
                proof {
                    let state1 = GenState {
                        instrs: instructions@,
                        table: table@,
                        next_slot: stack_index as int,
                    };
                    assert(state1.instrs =~= state0.instrs + instr0 + seq![
                        Instruction::Push { source },
                    ]);
                    assert(spec_generate_statement(sv[i as int], state0) == Ok::<
                        GenState,
                        CompileError,
                    >(state1));
                }
            },
            Some(d) => {
                match d {
                    Data::Loc(Location::StackIndex(idx)) => {
                        let mut loc_manager = LocManager::new();
                        let (source, mut instr) = match process_expr(
                            expr,
                            &mut loc_manager,
                            &table,
                        ) {
                            Ok(x) => x,
                            Err(e) => {
                                return Err(e);
                            },
                        };
                        let ghost instr0 = instr@;
                        instructions.append(&mut instr);
                        instructions.push(
                            Instruction::Move { source, dest: Location::StackIndex(idx) },
                        );
                        proof {
                            let state1 = GenState {
                                instrs: instructions@,
                                table: table@,
                                next_slot: stack_index as int,
                            };
                            assert(state1.instrs =~= state0.instrs + instr0 + seq![
                                Instruction::Move { source, dest: Location::StackIndex(idx) },
                            ]);
                            assert(spec_generate_statement(sv[i as int], state0) == Ok::<
                                GenState,
                                CompileError,
                            >(state1));
                        }
                    },
                    _ => {
                        proof {
                            assert(false);
                        }
                        vstd::pervasive::unreached()
                    },
                }
            },
        }
        i = i + 1;
    }
    Ok(instructions)
}

/// An instruction that stores a statement's value: a `Push`, or a `Move`
/// into a stack slot. Expression lowering never emits either; statement
/// generation emits exactly one per statement.
pub open spec fn is_store(i: Instruction) -> bool {
    ||| i matches Instruction::Push { .. }
    ||| i matches Instruction::Move { dest: Location::StackIndex(_), .. }
}

/// How many store instructions a sequence holds.
pub open spec fn count_stores(instrs: Seq<Instruction>) -> int
    decreases instrs.len(),
{
    if instrs.len() == 0 {
        0
    } else {
        count_stores(instrs.drop_last()) + if is_store(instrs.last()) {
            1int
        } else {
            0int
        }
    }
}

/// A single instruction counts as its own store count.
pub proof fn lemma_count_stores_singleton(x: Instruction)
    ensures
        count_stores(seq![x]) == if is_store(x) {
            1int
        } else {
            0int
        },
{
    assert(seq![x].drop_last() =~= Seq::<Instruction>::empty());
    assert(seq![x].last() == x);
    assert(count_stores(Seq::<Instruction>::empty()) == 0);
}

/// Store counting distributes over concatenation.
pub proof fn lemma_count_stores_concat(a: Seq<Instruction>, b: Seq<Instruction>)
    ensures
        count_stores(a + b) == count_stores(a) + count_stores(b),
    decreases b.len(),
{
    if b.len() == 0 {
        assert(a + b =~= a);
    } else {
        assert((a + b).drop_last() =~= a + b.drop_last());
        assert((a + b).last() == b.last());
        lemma_count_stores_concat(a, b.drop_last());
    }
}

/// Renderability distributes over concatenation.
pub proof fn lemma_renderable_concat(a: Seq<Instruction>, b: Seq<Instruction>)
    requires
        crate::emitter::instrs_renderable(a),
        crate::emitter::instrs_renderable(b),
    ensures
        crate::emitter::instrs_renderable(a + b),
{
    assert forall|k: int|
        0 <= k < (a + b).len() implies crate::emitter::instr_renderable(#[trigger] (a + b)[k]) by {
        if k < a.len() {
            assert((a + b)[k] == a[k]);
        } else {
            assert((a + b)[k] == b[k - a.len()]);
        }
    }
}

/// Every symbol-table entry is a stack slot (the part of the generator's
/// invariant that expression lowering needs).
pub open spec fn table_entries_are_slots(table: Map<Seq<char>, Data>) -> bool {
    forall|name: Seq<char>|
        table.contains_key(name) ==> (#[trigger] table[name] matches Data::Loc(
            Location::StackIndex(_),
        ))
}

/// Expression lowering yields a renderable operand, renderable
/// instructions, and — the heart of the statement-count law — no store
/// instruction at all: every `Move` it emits targets a register.
pub proof fn lemma_process_expr_emits(e: ExprV, regs: Seq<bool>, table: Map<Seq<char>, Data>)
    requires
        table_entries_are_slots(table),
    ensures
        spec_process_expr(e, regs, table) matches Ok((d, instrs, regs2)) ==> {
            &&& crate::emitter::data_renderable(d)
            &&& crate::emitter::instrs_renderable(instrs)
            &&& count_stores(instrs) == 0
        },
    decreases e,
{
    match e {
        ExprV::Integer(_) => {
        },
        ExprV::Identifier(_) => {
        },
        ExprV::BinaryExpr(l, op, r) => {
            lemma_process_expr_emits(*l, regs, table);
            if let Ok((dl, il, regs1)) = spec_process_expr(*l, regs, table) {
                lemma_process_expr_emits(*r, regs1, table);
                if let Ok((dr, ir, regs2)) = spec_process_expr(*r, regs1, table) {
                    if let Some((fi, regs3)) = spec_request(regs2) {
                        if op == crate::ast::Op::Add || op == crate::ast::Op::Mul {
                            let dest = Location::Register(fi);
                            let mv = Instruction::Move { source: dr, dest };
                            let op_instr = if op == crate::ast::Op::Add {
                                Instruction::Add { source: dl, dest }
                            } else {
                                Instruction::Mul { factor1: dl, factor2: dr }
                            };
                            let tail = if op == crate::ast::Op::Mul {
                                seq![
                                    Instruction::Move {
                                        source: Data::Loc(Location::Register(0)),
                                        dest,
                                    },
                                ]
                            } else {
                                Seq::<Instruction>::empty()
                            };
                            let mid = seq![mv, op_instr];
                            assert(mid =~= seq![mv] + seq![op_instr]);
                            assert(fi < 5);
                            assert(crate::emitter::instrs_renderable(mid)) by {
                                assert(mid[0] == mv);
                                assert(mid[1] == op_instr);
                            }
                            assert(crate::emitter::instrs_renderable(tail)) by {
                                if op == crate::ast::Op::Mul {
                                    assert(tail[0] == Instruction::Move {
                                        source: Data::Loc(Location::Register(0)),
                                        dest,
                                    });
                                }
                            }
                            lemma_renderable_concat(il, ir);
                            lemma_renderable_concat(il + ir, mid);
                            lemma_renderable_concat(il + ir + mid, tail);
                            lemma_count_stores_concat(il, ir);
                            lemma_count_stores_concat(il + ir, mid);
                            lemma_count_stores_concat(il + ir + mid, tail);
                            assert(count_stores(mid) == 0) by {
                                lemma_count_stores_singleton(mv);
                                lemma_count_stores_singleton(op_instr);
                                lemma_count_stores_concat(seq![mv], seq![op_instr]);
                            }
                            assert(count_stores(tail) == 0) by {
                                if op == crate::ast::Op::Mul {
                                    lemma_count_stores_singleton(tail[0]);
                                    assert(tail =~= seq![tail[0]]);
                                } else {
                                    assert(count_stores(Seq::<Instruction>::empty()) == 0);
                                }
                            }
                        }
                    }
                }
            }
        },
    }
}

/// Generating one statement preserves the generator's invariant, keeps the
/// emitted instructions renderable, and appends exactly one store.
pub proof fn lemma_generate_statement_props(st: StatementV, state: GenState)
    requires
        table_slots_only(state),
        crate::emitter::instrs_renderable(state.instrs),
    ensures
        spec_generate_statement(st, state) matches Ok(s2) ==> {
            &&& table_slots_only(s2)
            &&& crate::emitter::instrs_renderable(s2.instrs)
            &&& count_stores(s2.instrs) == count_stores(state.instrs) + 1
            &&& s2.next_slot >= state.next_slot
        },
{
    let StatementV::Assignment(name, e) = st;
    lemma_process_expr_emits(e, all_free_regs(), state.table);
    if let Ok((d, instrs, _)) = spec_process_expr(e, all_free_regs(), state.table) {
        if !state.table.contains_key(name) {
            let store = seq![Instruction::Push { source: d }];
            lemma_renderable_concat(state.instrs, instrs);
            lemma_renderable_concat(state.instrs + instrs, store);
            lemma_count_stores_concat(state.instrs, instrs);
            lemma_count_stores_concat(state.instrs + instrs, store);
            lemma_count_stores_singleton(store[0]);
            assert(store =~= seq![store[0]]);
        } else {
            if let Data::Loc(Location::StackIndex(i)) = state.table[name] {
                let store = seq![
                    Instruction::Move { source: d, dest: Location::StackIndex(i) },
                ];
                lemma_renderable_concat(state.instrs, instrs);
                lemma_renderable_concat(state.instrs + instrs, store);
                lemma_count_stores_concat(state.instrs, instrs);
                lemma_count_stores_concat(state.instrs + instrs, store);
                lemma_count_stores_singleton(store[0]);
                assert(store =~= seq![store[0]]);
            }
        }
    }
}

/// The fold of statement generation keeps the invariant and adds one store
/// per statement generated.
pub proof fn lemma_generate_from_props(stmts: Seq<StatementV>, i: int, state: GenState)
    requires
        0 <= i <= stmts.len(),
        table_slots_only(state),
        crate::emitter::instrs_renderable(state.instrs),
    ensures
        spec_generate_from(stmts, i, state) matches Ok(s2) ==> {
            &&& crate::emitter::instrs_renderable(s2.instrs)
            &&& count_stores(s2.instrs) == count_stores(state.instrs) + (stmts.len() - i)
        },
    decreases stmts.len() - i,
{
    if 0 <= i < stmts.len() {
        lemma_generate_statement_props(stmts[i], state);
        if let Ok(state2) = spec_generate_statement(stmts[i], state) {
            lemma_generate_from_props(stmts, i + 1, state2);
        }
    }
}

/// For a program that generates successfully, the emitted instruction
/// sequence holds exactly one store — a `Push` for a first assignment or a
/// `Move` into the existing slot for a reassignment — per statement of the
/// program.
pub proof fn lemma_statement_store_count(stmts: Seq<StatementV>)
    requires
        spec_generate(stmts) is Ok,
    ensures
        spec_generate(stmts) matches Ok(instrs) && count_stores(instrs) == stmts.len(),
{
    lemma_generate_from_props(stmts, 0, initial_gen_state());
}

/// Everything a successful generation emits, the renderer accepts.
pub proof fn lemma_generated_renderable(stmts: Seq<StatementV>)
    requires
        spec_generate(stmts) is Ok,
    ensures
        spec_generate(stmts) matches Ok(instrs) && crate::emitter::instrs_renderable(instrs),
{
    lemma_generate_from_props(stmts, 0, initial_gen_state());
}

/// The identifier a statement assigns.
pub open spec fn stmt_name(st: StatementV) -> Seq<char> {
    match st {
        StatementV::Assignment(name, _) => name,
    }
}

/// Statements whose identifiers the table does not yet know, all distinct,
/// are each given the next stack slot in order; entries already present
/// are left exactly as they were.
proof fn lemma_fresh_slots_from(stmts: Seq<StatementV>, i: int, state: GenState)
    requires
        0 <= i <= stmts.len(),
        0 <= state.next_slot,
        state.next_slot + (stmts.len() - i) <= usize::MAX as int,
        forall|k: int| i <= k < stmts.len() ==> !state.table.contains_key(
            #[trigger] stmt_name(stmts[k]),
        ),
        forall|a: int, b: int|
            i <= a < b < stmts.len() ==> stmt_name(stmts[a]) != stmt_name(stmts[b]),
        spec_generate_from(stmts, i, state) is Ok,
    ensures
        spec_generate_from(stmts, i, state) matches Ok(s2) && {
            &&& s2.next_slot == state.next_slot + (stmts.len() - i)
            &&& forall|k: int|
                i <= k < stmts.len() ==> s2.table.contains_key(#[trigger] stmt_name(stmts[k]))
                    && s2.table[stmt_name(stmts[k])] == Data::Loc(
                    Location::StackIndex((state.next_slot + (k - i)) as usize),
                )
            &&& forall|n: Seq<char>|
                #[trigger] state.table.contains_key(n) ==> s2.table.contains_key(n)
                    && s2.table[n] == state.table[n]
        },
    decreases stmts.len() - i,
{
    if i < stmts.len() {
        let StatementV::Assignment(name, e) = stmts[i];
        assert(name == stmt_name(stmts[i]));
        assert(!state.table.contains_key(name));
        if let Ok(state2) = spec_generate_statement(stmts[i], state) {
            let slot = Data::Loc(Location::StackIndex(state.next_slot as usize));
            assert(state2.table == state.table.insert(name, slot));
            assert(state2.next_slot == state.next_slot + 1);
            assert forall|k: int| i + 1 <= k < stmts.len() implies !state2.table.contains_key(
                #[trigger] stmt_name(stmts[k]),
            ) by {
                assert(stmt_name(stmts[k]) != name);
            }
            lemma_fresh_slots_from(stmts, i + 1, state2);
            let s2 = spec_generate_from(stmts, i + 1, state2)->Ok_0;
            assert(spec_generate_from(stmts, i, state) == Ok::<GenState, CompileError>(s2));
            assert(state2.table.contains_key(name) && state2.table[name] == slot);
            assert(s2.table.contains_key(name) && s2.table[name] == slot);
            assert forall|k: int| i <= k < stmts.len() implies s2.table.contains_key(
                #[trigger] stmt_name(stmts[k]),
            ) && s2.table[stmt_name(stmts[k])] == Data::Loc(
                Location::StackIndex((state.next_slot + (k - i)) as usize),
            ) by {
                if k == i {
                    assert(s2.table[name] == slot);
                } else {
                    assert(s2.table[stmt_name(stmts[k])] == Data::Loc(
                        Location::StackIndex((state2.next_slot + (k - (i + 1))) as usize),
                    ));
                    assert(state2.next_slot + (k - (i + 1)) == state.next_slot + (k - i));
                }
            }
            assert forall|n: Seq<char>| #[trigger]
                state.table.contains_key(n) implies s2.table.contains_key(n) && s2.table[n]
                == state.table[n] by {
                assert(n != name);
                assert(state2.table.contains_key(n) && state2.table[n] == state.table[n]);
            }
        }
    }
}

/// For a program whose identifiers are all distinct — each assigned
/// exactly once, in source order — a successful generation gives them the
/// stack slots `0, 1, 2, ...` in exactly that order.
pub proof fn lemma_slots_in_source_order(stmts: Seq<StatementV>)
    requires
        stmts.len() <= usize::MAX as int,
        forall|a: int, b: int|
            0 <= a < b < stmts.len() ==> stmt_name(stmts[a]) != stmt_name(stmts[b]),
        spec_generate_from(stmts, 0, initial_gen_state()) is Ok,
    ensures
        spec_generate_from(stmts, 0, initial_gen_state()) matches Ok(s2) && {
            &&& s2.next_slot == stmts.len()
            &&& forall|k: int|
                0 <= k < stmts.len() ==> s2.table.contains_key(#[trigger] stmt_name(stmts[k]))
                    && s2.table[stmt_name(stmts[k])] == Data::Loc(
                    Location::StackIndex(k as usize),
                )
        },
{
    lemma_fresh_slots_from(stmts, 0, initial_gen_state());
}

} // verus!
