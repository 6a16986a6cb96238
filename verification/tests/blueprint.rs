//! Function blueprints.

use katsu::ir::blueprint::{BlueprintError, FunctionBlueprint, Handler};
use katsu::ir::constant::ConstIndex;
use katsu::ir::op::{BlueprintIndex, CacheIndex, CodeOffset, Op, Register};

/// One entry, spelled with plain numbers so a table in a test reads as a table.
fn handler(start: u32, end: u32, target: u32, register: u16) -> Handler {
    Handler {
        start: CodeOffset(start),
        end: CodeOffset(end),
        target: CodeOffset(target),
        register: Register(register),
    }
}

fn returning_a_constant() -> FunctionBlueprint {
    let mut blueprint = FunctionBlueprint {
        name: "answer".to_owned(),
        frame_size: 1,
        ..FunctionBlueprint::default()
    };
    let index = blueprint.constants.number(42.0f64.to_bits(), "42");
    blueprint.code.push(Op::LoadConst {
        dst: Register(0),
        src: index,
    });
    blueprint.positions.record(0, 9);
    blueprint.code.push(Op::Return { src: Register(0) });
    blueprint.positions.record(1, 2);
    blueprint
}

#[test]
fn a_blueprint_holds_the_instructions_it_was_given() {
    let mut blueprint = FunctionBlueprint::default();
    assert!(blueprint.is_empty());

    blueprint.code.push(Op::LoadConst {
        dst: Register(0),
        src: ConstIndex(0),
    });
    blueprint.code.push(Op::Return { src: Register(0) });

    assert_eq!(blueprint.len(), 2);
    assert!(!blueprint.is_empty());
}

#[test]
fn a_well_formed_blueprint_verifies() {
    returning_a_constant().verify().expect("should be valid");
}

#[test]
fn a_disassembly_names_the_function_and_resolves_its_constants() {
    let listing = returning_a_constant().disassemble();
    let lines: Vec<&str> = listing.lines().collect();

    assert_eq!(
        lines[0],
        "function answer: 0 params, 1 registers, 0 cells, 0 caches"
    );
    assert_eq!(lines[1].trim(), "0       9  load_const r0, k0  ; 42");
    assert_eq!(lines[2].trim(), "1       2  return r0");
    assert_eq!(lines.len(), 3);
}

#[test]
fn an_unpatched_forward_jump_is_caught() {
    // The bug this exists for. A jump emitted with a placeholder target and never patched points
    // at `u32::MAX`, which is a wild jump at run time and a clear message here.
    let mut blueprint = returning_a_constant();
    blueprint.code.insert(
        0,
        Op::Jump {
            target: CodeOffset(u32::MAX),
        },
    );

    let error = blueprint.verify().expect_err("should be refused");
    assert!(matches!(
        error,
        BlueprintError::JumpOutOfRange { at: 0, .. }
    ));
}

#[test]
fn a_register_past_the_end_of_the_frame_is_caught() {
    let mut blueprint = returning_a_constant();
    blueprint.code.push(Op::Move {
        dst: Register(9),
        src: Register(0),
    });

    let error = blueprint.verify().expect_err("should be refused");
    assert!(matches!(
        error,
        BlueprintError::RegisterOutOfRange { register: 9, .. }
    ));
}

#[test]
fn the_last_argument_of_a_call_has_to_fit_in_the_frame() {
    // Two arguments starting at r0 means r0 and r1, so a frame of one register is one short.
    let mut blueprint = returning_a_constant();
    blueprint.code.push(Op::Call {
        dst: Register(0),
        callee: Register(0),
        args: Register(0),
        argc: 2,
        cache: CacheIndex(0),
    });
    blueprint.cache_slots = 1;

    let error = blueprint.verify().expect_err("should be refused");
    assert!(matches!(
        error,
        BlueprintError::RegisterOutOfRange { register: 1, .. }
    ));
}

#[test]
fn a_constant_index_from_the_wrong_pool_is_caught() {
    let mut blueprint = returning_a_constant();
    blueprint.code.insert(
        0,
        Op::LoadConst {
            dst: Register(0),
            src: ConstIndex(7),
        },
    );

    let error = blueprint.verify().expect_err("should be refused");
    assert!(matches!(
        error,
        BlueprintError::ConstantOutOfRange { index: 7, .. }
    ));
}

#[test]
fn a_closure_over_a_function_that_is_not_there_is_caught() {
    let mut blueprint = returning_a_constant();
    blueprint.code.insert(
        0,
        Op::NewClosure {
            dst: Register(0),
            blueprint: BlueprintIndex(0),
        },
    );

    let error = blueprint.verify().expect_err("should be refused");
    assert!(matches!(
        error,
        BlueprintError::BlueprintOutOfRange { index: 0, .. }
    ));
}

#[test]
fn a_cache_slot_that_was_never_allocated_is_caught() {
    let mut blueprint = returning_a_constant();
    blueprint.code.insert(
        0,
        Op::Add {
            dst: Register(0),
            lhs: Register(0),
            rhs: Register(0),
            cache: CacheIndex(3),
        },
    );

    let error = blueprint.verify().expect_err("should be refused");
    assert!(matches!(
        error,
        BlueprintError::CacheOutOfRange { index: 3, .. }
    ));
}

#[test]
fn code_that_runs_off_the_end_is_caught() {
    let mut blueprint = returning_a_constant();
    blueprint.code.pop();

    assert!(matches!(
        blueprint.verify().expect_err("should be refused"),
        BlueprintError::FallsOffTheEnd
    ));
}

#[test]
fn a_nested_blueprint_is_verified_too() {
    // A broken function inside a valid one is exactly the case a shallow check would miss.
    let mut outer = returning_a_constant();
    let mut inner = returning_a_constant();
    inner.code.pop();
    outer.blueprints.push(inner);

    assert!(matches!(
        outer.verify().expect_err("should be refused"),
        BlueprintError::FallsOffTheEnd
    ));
}

#[test]
fn a_handler_table_is_checked_the_way_the_code_is() {
    // A bad entry is a bug in lowering that would otherwise show up as a jump into the middle
    // of nowhere at the worst possible moment, which is while something is already throwing.
    let table = |handler| FunctionBlueprint {
        handlers: vec![handler],
        ..returning_a_constant()
    };

    // An empty range as well as a backwards one. A `try {}` with nothing in it cannot throw,
    // so lowering has no reason to emit an entry for it.
    assert!(matches!(
        table(handler(1, 1, 0, 0))
            .verify()
            .expect_err("empty range"),
        BlueprintError::HandlerOutOfRange { .. }
    ));
    assert!(matches!(
        table(handler(1, 0, 0, 0))
            .verify()
            .expect_err("backwards range"),
        BlueprintError::HandlerOutOfRange { .. }
    ));
    assert!(matches!(
        table(handler(0, 9, 0, 0))
            .verify()
            .expect_err("past the end"),
        BlueprintError::HandlerOutOfRange { .. }
    ));
    assert!(matches!(
        table(handler(0, 2, 9, 0))
            .verify()
            .expect_err("a target past the end"),
        BlueprintError::HandlerOutOfRange { .. }
    ));
    assert!(matches!(
        table(handler(0, 2, 0, 4))
            .verify()
            .expect_err("a register the frame does not have"),
        BlueprintError::HandlerRegisterOutOfRange { .. }
    ));

    table(handler(0, 2, 1, 0)).verify().expect("a good entry");
}

#[test]
fn the_handler_a_throw_finds_is_the_first_entry_that_contains_it() {
    // Order is the search rule, so a lookup is a scan and the first hit wins. Lowering puts an
    // entry in when it has finished the block it protects, which is what makes the innermost
    // one first without anything here comparing two ranges.
    let blueprint = FunctionBlueprint {
        handlers: vec![handler(0, 1, 1, 0), handler(0, 2, 1, 0)],
        ..returning_a_constant()
    };

    assert_eq!(
        blueprint.handler_for(CodeOffset(0)),
        Some(&handler(0, 1, 1, 0)),
        "both contain it and the first one wins"
    );
    assert_eq!(
        blueprint.handler_for(CodeOffset(1)),
        Some(&handler(0, 2, 1, 0)),
        "the end of a range is not in it, so the second entry is the only match"
    );
    assert_eq!(blueprint.handler_for(CodeOffset(2)), None);
    assert!(
        returning_a_constant().handler_for(CodeOffset(0)).is_none(),
        "a function with no table catches nothing"
    );
}

#[test]
fn a_disassembly_shows_the_table_because_no_instruction_mentions_it() {
    let blueprint = FunctionBlueprint {
        handlers: vec![handler(0, 2, 1, 0)],
        ..returning_a_constant()
    };
    let listing = blueprint.disassemble();
    assert!(listing.contains("handlers:"), "{listing}");
    assert!(listing.contains("[0, 2) -> 1 into r0"), "{listing}");
}

#[test]
fn a_disassembly_includes_the_functions_written_inside() {
    let mut outer = returning_a_constant();
    outer.blueprints.push(returning_a_constant());

    let listing = outer.disassemble();
    assert!(listing.contains("fn0:"), "{listing}");
    assert_eq!(listing.matches("function answer").count(), 2, "{listing}");
}
