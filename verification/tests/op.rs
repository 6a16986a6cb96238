//! The instruction set.

use katsu::ir::constant::ConstIndex;
use katsu::ir::op::{BlueprintIndex, CacheIndex, CodeOffset, Op, Register};

#[test]
fn registers_print_the_way_a_disassembly_should_read() {
    assert_eq!(Register(7).to_string(), "r7");
    assert_eq!(format!("{}", Register(7).to_string()), "r7");
}

#[test]
fn an_instruction_prints_its_mnemonic_and_its_operands() {
    let add = Op::Add {
        dst: Register(0),
        lhs: Register(1),
        rhs: Register(2),
        cache: CacheIndex(3),
    };
    assert_eq!(add.to_string(), "add r0, r1, r2, ic3");
}

#[test]
fn the_running_closure_is_its_own_instruction() {
    // `const f = function me() { return me; };` binds `me` to the closure being called and not
    // to whatever `f` holds now, and there is nothing else to read that from.
    let load = Op::LoadClosure { dst: Register(0) };
    assert_eq!(load.to_string(), "load_closure r0");
    assert!(!load.is_terminator());
}

#[test]
fn the_shared_three_address_printer_covers_every_operator_it_claims_to() {
    // Every arm routed through `write_three_address` has to come back out with a mnemonic. If
    // one is added to the enum and forgotten there, this panics on the `unreachable`.
    let operands = (Register(0), Register(1), Register(2), CacheIndex(0));
    let (dst, lhs, rhs, cache) = operands;
    let ops = [
        Op::Add {
            dst,
            lhs,
            rhs,
            cache,
        },
        Op::Sub {
            dst,
            lhs,
            rhs,
            cache,
        },
        Op::Mul {
            dst,
            lhs,
            rhs,
            cache,
        },
        Op::Div {
            dst,
            lhs,
            rhs,
            cache,
        },
        Op::Rem {
            dst,
            lhs,
            rhs,
            cache,
        },
        Op::Pow {
            dst,
            lhs,
            rhs,
            cache,
        },
        Op::BitOr {
            dst,
            lhs,
            rhs,
            cache,
        },
        Op::BitXor {
            dst,
            lhs,
            rhs,
            cache,
        },
        Op::BitAnd {
            dst,
            lhs,
            rhs,
            cache,
        },
        Op::Shl {
            dst,
            lhs,
            rhs,
            cache,
        },
        Op::Shr {
            dst,
            lhs,
            rhs,
            cache,
        },
        Op::UnsignedShr {
            dst,
            lhs,
            rhs,
            cache,
        },
        Op::Equal {
            dst,
            lhs,
            rhs,
            cache,
        },
        Op::NotEqual {
            dst,
            lhs,
            rhs,
            cache,
        },
        Op::StrictEqual {
            dst,
            lhs,
            rhs,
            cache,
        },
        Op::StrictNotEqual {
            dst,
            lhs,
            rhs,
            cache,
        },
        Op::Less {
            dst,
            lhs,
            rhs,
            cache,
        },
        Op::LessEqual {
            dst,
            lhs,
            rhs,
            cache,
        },
        Op::Greater {
            dst,
            lhs,
            rhs,
            cache,
        },
        Op::GreaterEqual {
            dst,
            lhs,
            rhs,
            cache,
        },
        Op::In {
            dst,
            lhs,
            rhs,
            cache,
        },
        Op::InstanceOf {
            dst,
            lhs,
            rhs,
            cache,
        },
    ];

    for op in ops {
        let printed = op.to_string();
        assert!(
            printed.ends_with("r0, r1, r2, ic0"),
            "{op:?} printed as {printed}"
        );
        assert!(!printed.starts_with(' '), "{op:?} printed with no mnemonic");
    }
}

#[test]
fn only_the_instructions_that_read_a_constant_report_one() {
    assert_eq!(
        Op::GetProp {
            dst: Register(0),
            obj: Register(1),
            key: ConstIndex(4),
            cache: CacheIndex(0),
        }
        .constant(),
        Some(ConstIndex(4))
    );
    assert_eq!(Op::LoadUndefined { dst: Register(0) }.constant(), None);
}

#[test]
fn a_forward_jump_can_be_patched_once_the_target_is_known() {
    let mut jump = Op::JumpIfFalse {
        cond: Register(0),
        target: CodeOffset(u32::MAX),
    };
    jump.set_jump_target(CodeOffset(12));

    assert_eq!(jump.jump_target(), Some(CodeOffset(12)));
    assert_eq!(jump.to_string(), "jump_if_false r0, @12");
}

#[test]
fn a_return_ends_a_run_of_instructions_and_a_load_does_not() {
    assert!(Op::Return { src: Register(0) }.is_terminator());
    assert!(
        Op::Jump {
            target: CodeOffset(0)
        }
        .is_terminator()
    );
    // An unconditional jump with a counter attached, so nothing after it ever runs.
    assert!(
        Op::LoopBackEdge {
            target: CodeOffset(0),
            profile: CacheIndex(0)
        }
        .is_terminator()
    );
    // And the conditional ones are not, because control does continue when the test fails.
    assert!(
        !Op::JumpIfTrue {
            cond: Register(0),
            target: CodeOffset(0)
        }
        .is_terminator()
    );
    assert!(
        !Op::Move {
            dst: Register(0),
            src: Register(1)
        }
        .is_terminator()
    );
}

#[test]
fn a_closure_names_the_blueprint_it_is_stamped_from() {
    let op = Op::NewClosure {
        dst: Register(2),
        blueprint: BlueprintIndex(1),
    };
    assert_eq!(op.to_string(), "new_closure r2, fn1");
}
