//! What the bytecode promises as a whole, on concrete values.

use katsu::ir::blueprint::{BlueprintError, FunctionBlueprint, Handler};
use katsu::ir::constant::{ConstIndex, Constant, ConstantPool};
use katsu::ir::op::{BlueprintIndex, CacheIndex, CodeOffset, Op, Register};
use katsu::ir::position::SourcePositions;
use katsu::text::{decimal_string, parse_decimal};

fn handler(start: u32, end: u32, target: u32, register: u16) -> Handler {
    Handler {
        start: CodeOffset(start),
        end: CodeOffset(end),
        target: CodeOffset(target),
        register: Register(register),
    }
}

/// Two instructions and a frame of two registers, with nothing wrong with it.
fn sound() -> FunctionBlueprint {
    FunctionBlueprint {
        frame_size: 2,
        code: vec![Op::LoadInt { dst: Register(1), value: -3 }, Op::Return { src: Register(1) }],
        ..FunctionBlueprint::default()
    }
}

fn refusal(blueprint: &FunctionBlueprint) -> String {
    blueprint.verify().expect_err("should be refused").to_string()
}

#[test]
fn every_refusal_says_what_is_wrong_by_its_numbers() {
    assert_eq!(sound().verify(), Ok(()));

    let mut jump = sound();
    jump.code[0] = Op::Jump { target: CodeOffset(2) };
    assert_eq!(refusal(&jump), "instruction 0 jumps to 2, which is past the end of 2 instructions");

    let mut register = sound();
    register.code[0] = Op::Move { dst: Register(0), src: Register(2) };
    assert_eq!(refusal(&register), "instruction 0 uses r2, but the frame holds 2 registers");

    let mut constant = sound();
    constant.code[0] = Op::LoadConst { dst: Register(0), src: ConstIndex(4) };
    assert_eq!(refusal(&constant), "instruction 0 reads k4, but the pool holds 0 constants");

    let mut closure = sound();
    closure.code[0] = Op::NewClosure { dst: Register(0), blueprint: BlueprintIndex(1) };
    assert_eq!(refusal(&closure), "instruction 0 closes over fn1, but there are 0 nested blueprints");

    let mut cache = sound();
    cache.code[0] = Op::Neg { dst: Register(0), src: Register(1), cache: CacheIndex(6) };
    assert_eq!(refusal(&cache), "instruction 0 uses ic6, but 0 cache slots were allocated");

    let mut open = sound();
    open.code.pop();
    assert_eq!(refusal(&open), "the code does not end in a return or a jump");

    let mut range = sound();
    range.handlers.push(handler(1, 1, 0, 0));
    assert_eq!(refusal(&range), "handler 0 protects [1, 1) and lands at 0, in 2 instructions");

    let mut caught = sound();
    caught.handlers.push(handler(0, 1, 1, 9));
    assert_eq!(refusal(&caught), "handler 0 catches into r9, but the frame holds 2 registers");
}

#[test]
fn a_call_names_every_register_its_arguments_lie_in() {
    let mut blueprint = sound();
    blueprint.cache_slots = 1;
    blueprint.frame_size = 5;
    blueprint.code[0] = Op::Call {
        dst: Register(0),
        callee: Register(1),
        args: Register(2),
        argc: 3,
        cache: CacheIndex(0),
    };
    assert_eq!(blueprint.verify(), Ok(()));
    blueprint.frame_size = 4;
    assert_eq!(
        blueprint.verify(),
        Err(BlueprintError::RegisterOutOfRange { at: 0, register: 4, frame_size: 4 })
    );
}

#[test]
fn the_functions_inside_one_that_verifies_verify_too() {
    let mut outer = sound();
    outer.blueprints.push(sound());
    assert_eq!(outer.verify(), Ok(()));
    assert_eq!(outer.blueprints[0].verify(), Ok(()));
    outer.blueprints[0].code.pop();
    assert_eq!(outer.verify(), Err(BlueprintError::FallsOffTheEnd));
}

#[test]
fn the_first_entry_that_contains_a_throw_catches_it() {
    let mut blueprint = sound();
    blueprint.handlers.push(handler(4, 6, 0, 0));
    blueprint.handlers.push(handler(2, 8, 1, 1));
    assert_eq!(blueprint.handler_for(CodeOffset(5)), Some(&handler(4, 6, 0, 0)));
    assert_eq!(blueprint.handler_for(CodeOffset(6)), Some(&handler(2, 8, 1, 1)));
    assert_eq!(blueprint.handler_for(CodeOffset(8)), None);
}

#[test]
fn a_listing_shows_positions_constants_handlers_and_nested_functions() {
    let mut blueprint = sound();
    let word = blueprint.constants.string("a\n\"b\"");
    blueprint.code[0] = Op::LoadConst { dst: Register(1), src: word };
    blueprint.positions.record(1, 30);
    blueprint.handlers.push(handler(0, 1, 1, 0));
    blueprint.blueprints.push(FunctionBlueprint { name: "inner".to_owned(), ..sound() });
    let expected = [
        "function <anonymous>: 0 params, 2 registers, 0 cells, 0 caches",
        "     0       -  load_const r1, k0  ; \"a\\n\\\"b\\\"\"",
        "     1      30  return r1",
        "  handlers:",
        "    [0, 1) -> 1 into r0",
        "",
        "  fn0:",
        "  function inner: 0 params, 2 registers, 0 cells, 0 caches",
        "       0       -  load_int r1, -3",
        "       1       -  return r1",
        "",
    ]
    .join("\n");
    assert_eq!(blueprint.disassemble(), expected);
}

#[test]
fn patching_a_jump_changes_only_where_it_points() {
    let mut jump = Op::JumpIfFalse { cond: Register(3), target: CodeOffset(0) };
    jump.set_jump_target(CodeOffset(7));
    assert_eq!(jump, Op::JumpIfFalse { cond: Register(3), target: CodeOffset(7) });
    let mut back = Op::LoopBackEdge { target: CodeOffset(1), profile: CacheIndex(5) };
    back.set_jump_target(CodeOffset(2));
    assert_eq!(back, Op::LoopBackEdge { target: CodeOffset(2), profile: CacheIndex(5) });
    assert_eq!(Op::Return { src: Register(0) }.jump_target(), None);
}

#[test]
fn what_is_recorded_for_an_instruction_comes_back_and_a_run_is_one_entry() {
    let mut positions = SourcePositions::default();
    positions.record(2, 10);
    positions.record(3, 10);
    positions.record(5, 40);
    assert_eq!(positions.len(), 2);
    assert_eq!(positions.offset_at(1), None);
    assert_eq!(positions.offset_at(2), Some(10));
    assert_eq!(positions.offset_at(4), Some(10));
    assert_eq!(positions.offset_at(9), Some(40));
}

#[test]
fn the_same_constant_twice_is_one_entry_and_an_index_stays_good() {
    let mut pool = ConstantPool::default();
    let half = pool.number(0.5f64.to_bits(), "0.5");
    let name = pool.string("0.5");
    assert_ne!(half, name);
    for n in 0..100u32 {
        pool.number(f64::from(n).to_bits(), &n.to_string());
        pool.string(&n.to_string());
    }
    assert_eq!(pool.number(0.5f64.to_bits(), "0.5"), half);
    assert_eq!(pool.string("0.5"), name);
    assert_eq!(pool.len(), 202);
    assert!(matches!(pool.get(half), Some(Constant::Number { bits, .. }) if *bits == 0.5f64.to_bits()));
    assert!(matches!(pool.get(name), Some(Constant::String(text)) if text == "0.5"));
    let quoted = Constant::String("tab\there".to_owned());
    assert_eq!(quoted.to_string(), "\"tab\\there\"");
}

#[test]
fn numbers_in_decimal_are_read_back_as_themselves() {
    for n in [0, 7, 10, 4294967295, u64::MAX] {
        assert_eq!(decimal_string(n), n.to_string());
    }
    for n in [0, 7, 10, 4294967294] {
        assert_eq!(parse_decimal(&decimal_string(n), 4294967294), Some(n));
    }
    assert_eq!(parse_decimal("12", 11), None);
    for text in ["", "01", "+1", " 1", "1e3"] {
        assert_eq!(parse_decimal(text, 4294967294), None, "{text:?}");
    }
}

#[test]
fn every_index_after_the_first_recorded_position_has_one() {
    let mut positions = SourcePositions::default();
    positions.record(0, 10);
    assert_eq!(positions.offset_at(4294967296), Some(10));
    assert_eq!(positions.offset_at(usize::MAX), Some(10));
}

#[test]
fn a_position_that_is_changed_back_joins_the_run_in_front() {
    let mut positions = SourcePositions::default();
    positions.record(0, 5);
    positions.record(1, 40);
    positions.record(1, 5);
    assert_eq!(positions.len(), 1);
    assert_eq!(positions.offset_at(0), Some(5));
    assert_eq!(positions.offset_at(1), Some(5));
    positions.record(2, 40);
    positions.record(2, 41);
    assert_eq!(positions.len(), 2);
    assert_eq!(positions.offset_at(2), Some(41));
}

#[test]
fn instructions_that_differ_print_differently() {
    let ops = [
        Op::LoadInt { dst: Register(1), value: 2 },
        Op::LoadInt { dst: Register(1), value: -2 },
        Op::LoadInt { dst: Register(12), value: 2 },
        Op::LoadBool { dst: Register(1), value: true },
        Op::Move { dst: Register(1), src: Register(2) },
        Op::Not { dst: Register(1), src: Register(2) },
        Op::LoadConst { dst: Register(1), src: ConstIndex(2) },
        Op::NewClosure { dst: Register(1), blueprint: BlueprintIndex(2) },
        Op::NewObject { dst: Register(1), slots: 2 },
        Op::JumpIfTrue { cond: Register(1), target: CodeOffset(2) },
        Op::ThrowConstAssignment,
    ];
    for (i, left) in ops.iter().enumerate() {
        for (j, right) in ops.iter().enumerate() {
            assert_eq!(left.to_string() == right.to_string(), i == j, "{left:?} {right:?}");
        }
    }
    assert_eq!(ops[1].to_string(), "load_int r1, -2");
    assert_eq!(ops[10].to_string(), "throw_const_assignment");
}
