//! What each instruction is: its name, what it refers to and where control goes after it.
//!
//! Stated instruction by instruction, so that a listing can be held against the instruction set and a
//! verifier against what running the instruction does.

use vstd::prelude::*;

use crate::ir::blueprint::{BlueprintError, FunctionBlueprint};
use crate::ir::constant::ConstIndex;
use crate::ir::op::{
    cache_from, constant_from, first_cache, first_constant, first_target, listed, target_from,
    CacheIndex, CodeOffset, Op, Operand, Register,
};
use crate::text::{decimal, signed, truth};

verus! {

/// A listing names every instruction by its own name and prints its operands in the order the
/// instruction has them: registers as `r`, constants as `k`, caches as `ic`, jump targets as `@` and
/// nested functions as `fn`, each with its number, and everything else as it is.
pub proof fn law_an_instruction_prints_its_name_and_its_operands(op: Op)
    ensures
        op.text() == match op {
            Op::LoadConst { dst, src } => "load_const"@ + " "@ + (
            ("r"@ + decimal(dst.0 as nat))
                + ", "@ + ("k"@ + decimal(src.0 as nat))),
            Op::LoadInt { dst, value } => "load_int"@ + " "@ + (
            ("r"@ + decimal(dst.0 as nat))
                + ", "@ + signed(value as int)),
            Op::LoadUndefined { dst } => "load_undefined"@ + " "@ + (
            ("r"@ + decimal(dst.0 as nat))),
            Op::LoadNull { dst } => "load_null"@ + " "@ + (
            ("r"@ + decimal(dst.0 as nat))),
            Op::LoadBool { dst, value } => "load_bool"@ + " "@ + (
            ("r"@ + decimal(dst.0 as nat))
                + ", "@ + truth(value)),
            Op::LoadThis { dst } => "load_this"@ + " "@ + (
            ("r"@ + decimal(dst.0 as nat))),
            Op::LoadClosure { dst } => "load_closure"@ + " "@ + (
            ("r"@ + decimal(dst.0 as nat))),
            Op::Move { dst, src } => "move"@ + " "@ + (
            ("r"@ + decimal(dst.0 as nat))
                + ", "@ + ("r"@ + decimal(src.0 as nat))),
            Op::LoadUninitialized { dst } => "load_uninitialized"@ + " "@ + (
            ("r"@ + decimal(dst.0 as nat))),
            Op::ThrowIfUninitialized { src, name } => "throw_if_uninitialized"@ + " "@ + (
            ("r"@ + decimal(src.0 as nat))
                + ", "@ + ("k"@ + decimal(name.0 as nat))),
            Op::ThrowConstAssignment => "throw_const_assignment"@,
            Op::LoadUpvalue { dst, hops, slot } => "load_upvalue"@ + " "@ + (
            ("r"@ + decimal(dst.0 as nat))
                + ", "@ + decimal(hops as nat)
                + ", "@ + decimal(slot as nat)),
            Op::StoreUpvalue { hops, slot, src } => "store_upvalue"@ + " "@ + (
            decimal(hops as nat)
                + ", "@ + decimal(slot as nat)
                + ", "@ + ("r"@ + decimal(src.0 as nat))),
            Op::NewContext { size } => "new_context"@ + " "@ + (
            decimal(size as nat)),
            Op::LoadGlobal { dst, name, cache } => "load_global"@ + " "@ + (
            ("r"@ + decimal(dst.0 as nat))
                + ", "@ + ("k"@ + decimal(name.0 as nat))
                + ", "@ + ("ic"@ + decimal(cache.0 as nat))),
            Op::LoadGlobalForTypeof { dst, name, cache } => "load_global_for_typeof"@ + " "@ + (
            ("r"@ + decimal(dst.0 as nat))
                + ", "@ + ("k"@ + decimal(name.0 as nat))
                + ", "@ + ("ic"@ + decimal(cache.0 as nat))),
            Op::StoreGlobal { name, src, cache } => "store_global"@ + " "@ + (
            ("k"@ + decimal(name.0 as nat))
                + ", "@ + ("r"@ + decimal(src.0 as nat))
                + ", "@ + ("ic"@ + decimal(cache.0 as nat))),
            Op::Add { dst, lhs, rhs, cache } => "add"@ + " "@ + (
            ("r"@ + decimal(dst.0 as nat))
                + ", "@ + ("r"@ + decimal(lhs.0 as nat))
                + ", "@ + ("r"@ + decimal(rhs.0 as nat))
                + ", "@ + ("ic"@ + decimal(cache.0 as nat))),
            Op::Sub { dst, lhs, rhs, cache } => "sub"@ + " "@ + (
            ("r"@ + decimal(dst.0 as nat))
                + ", "@ + ("r"@ + decimal(lhs.0 as nat))
                + ", "@ + ("r"@ + decimal(rhs.0 as nat))
                + ", "@ + ("ic"@ + decimal(cache.0 as nat))),
            Op::Mul { dst, lhs, rhs, cache } => "mul"@ + " "@ + (
            ("r"@ + decimal(dst.0 as nat))
                + ", "@ + ("r"@ + decimal(lhs.0 as nat))
                + ", "@ + ("r"@ + decimal(rhs.0 as nat))
                + ", "@ + ("ic"@ + decimal(cache.0 as nat))),
            Op::Div { dst, lhs, rhs, cache } => "div"@ + " "@ + (
            ("r"@ + decimal(dst.0 as nat))
                + ", "@ + ("r"@ + decimal(lhs.0 as nat))
                + ", "@ + ("r"@ + decimal(rhs.0 as nat))
                + ", "@ + ("ic"@ + decimal(cache.0 as nat))),
            Op::Rem { dst, lhs, rhs, cache } => "rem"@ + " "@ + (
            ("r"@ + decimal(dst.0 as nat))
                + ", "@ + ("r"@ + decimal(lhs.0 as nat))
                + ", "@ + ("r"@ + decimal(rhs.0 as nat))
                + ", "@ + ("ic"@ + decimal(cache.0 as nat))),
            Op::Pow { dst, lhs, rhs, cache } => "pow"@ + " "@ + (
            ("r"@ + decimal(dst.0 as nat))
                + ", "@ + ("r"@ + decimal(lhs.0 as nat))
                + ", "@ + ("r"@ + decimal(rhs.0 as nat))
                + ", "@ + ("ic"@ + decimal(cache.0 as nat))),
            Op::BitOr { dst, lhs, rhs, cache } => "bit_or"@ + " "@ + (
            ("r"@ + decimal(dst.0 as nat))
                + ", "@ + ("r"@ + decimal(lhs.0 as nat))
                + ", "@ + ("r"@ + decimal(rhs.0 as nat))
                + ", "@ + ("ic"@ + decimal(cache.0 as nat))),
            Op::BitXor { dst, lhs, rhs, cache } => "bit_xor"@ + " "@ + (
            ("r"@ + decimal(dst.0 as nat))
                + ", "@ + ("r"@ + decimal(lhs.0 as nat))
                + ", "@ + ("r"@ + decimal(rhs.0 as nat))
                + ", "@ + ("ic"@ + decimal(cache.0 as nat))),
            Op::BitAnd { dst, lhs, rhs, cache } => "bit_and"@ + " "@ + (
            ("r"@ + decimal(dst.0 as nat))
                + ", "@ + ("r"@ + decimal(lhs.0 as nat))
                + ", "@ + ("r"@ + decimal(rhs.0 as nat))
                + ", "@ + ("ic"@ + decimal(cache.0 as nat))),
            Op::Shl { dst, lhs, rhs, cache } => "shl"@ + " "@ + (
            ("r"@ + decimal(dst.0 as nat))
                + ", "@ + ("r"@ + decimal(lhs.0 as nat))
                + ", "@ + ("r"@ + decimal(rhs.0 as nat))
                + ", "@ + ("ic"@ + decimal(cache.0 as nat))),
            Op::Shr { dst, lhs, rhs, cache } => "shr"@ + " "@ + (
            ("r"@ + decimal(dst.0 as nat))
                + ", "@ + ("r"@ + decimal(lhs.0 as nat))
                + ", "@ + ("r"@ + decimal(rhs.0 as nat))
                + ", "@ + ("ic"@ + decimal(cache.0 as nat))),
            Op::UnsignedShr { dst, lhs, rhs, cache } => "unsigned_shr"@ + " "@ + (
            ("r"@ + decimal(dst.0 as nat))
                + ", "@ + ("r"@ + decimal(lhs.0 as nat))
                + ", "@ + ("r"@ + decimal(rhs.0 as nat))
                + ", "@ + ("ic"@ + decimal(cache.0 as nat))),
            Op::Equal { dst, lhs, rhs, cache } => "equal"@ + " "@ + (
            ("r"@ + decimal(dst.0 as nat))
                + ", "@ + ("r"@ + decimal(lhs.0 as nat))
                + ", "@ + ("r"@ + decimal(rhs.0 as nat))
                + ", "@ + ("ic"@ + decimal(cache.0 as nat))),
            Op::NotEqual { dst, lhs, rhs, cache } => "not_equal"@ + " "@ + (
            ("r"@ + decimal(dst.0 as nat))
                + ", "@ + ("r"@ + decimal(lhs.0 as nat))
                + ", "@ + ("r"@ + decimal(rhs.0 as nat))
                + ", "@ + ("ic"@ + decimal(cache.0 as nat))),
            Op::StrictEqual { dst, lhs, rhs, cache } => "strict_equal"@ + " "@ + (
            ("r"@ + decimal(dst.0 as nat))
                + ", "@ + ("r"@ + decimal(lhs.0 as nat))
                + ", "@ + ("r"@ + decimal(rhs.0 as nat))
                + ", "@ + ("ic"@ + decimal(cache.0 as nat))),
            Op::StrictNotEqual { dst, lhs, rhs, cache } => "strict_not_equal"@ + " "@ + (
            ("r"@ + decimal(dst.0 as nat))
                + ", "@ + ("r"@ + decimal(lhs.0 as nat))
                + ", "@ + ("r"@ + decimal(rhs.0 as nat))
                + ", "@ + ("ic"@ + decimal(cache.0 as nat))),
            Op::Less { dst, lhs, rhs, cache } => "less"@ + " "@ + (
            ("r"@ + decimal(dst.0 as nat))
                + ", "@ + ("r"@ + decimal(lhs.0 as nat))
                + ", "@ + ("r"@ + decimal(rhs.0 as nat))
                + ", "@ + ("ic"@ + decimal(cache.0 as nat))),
            Op::LessEqual { dst, lhs, rhs, cache } => "less_equal"@ + " "@ + (
            ("r"@ + decimal(dst.0 as nat))
                + ", "@ + ("r"@ + decimal(lhs.0 as nat))
                + ", "@ + ("r"@ + decimal(rhs.0 as nat))
                + ", "@ + ("ic"@ + decimal(cache.0 as nat))),
            Op::Greater { dst, lhs, rhs, cache } => "greater"@ + " "@ + (
            ("r"@ + decimal(dst.0 as nat))
                + ", "@ + ("r"@ + decimal(lhs.0 as nat))
                + ", "@ + ("r"@ + decimal(rhs.0 as nat))
                + ", "@ + ("ic"@ + decimal(cache.0 as nat))),
            Op::GreaterEqual { dst, lhs, rhs, cache } => "greater_equal"@ + " "@ + (
            ("r"@ + decimal(dst.0 as nat))
                + ", "@ + ("r"@ + decimal(lhs.0 as nat))
                + ", "@ + ("r"@ + decimal(rhs.0 as nat))
                + ", "@ + ("ic"@ + decimal(cache.0 as nat))),
            Op::In { dst, lhs, rhs, cache } => "in"@ + " "@ + (
            ("r"@ + decimal(dst.0 as nat))
                + ", "@ + ("r"@ + decimal(lhs.0 as nat))
                + ", "@ + ("r"@ + decimal(rhs.0 as nat))
                + ", "@ + ("ic"@ + decimal(cache.0 as nat))),
            Op::InstanceOf { dst, lhs, rhs, cache } => "instance_of"@ + " "@ + (
            ("r"@ + decimal(dst.0 as nat))
                + ", "@ + ("r"@ + decimal(lhs.0 as nat))
                + ", "@ + ("r"@ + decimal(rhs.0 as nat))
                + ", "@ + ("ic"@ + decimal(cache.0 as nat))),
            Op::Neg { dst, src, cache } => "neg"@ + " "@ + (
            ("r"@ + decimal(dst.0 as nat))
                + ", "@ + ("r"@ + decimal(src.0 as nat))
                + ", "@ + ("ic"@ + decimal(cache.0 as nat))),
            Op::BitNot { dst, src, cache } => "bit_not"@ + " "@ + (
            ("r"@ + decimal(dst.0 as nat))
                + ", "@ + ("r"@ + decimal(src.0 as nat))
                + ", "@ + ("ic"@ + decimal(cache.0 as nat))),
            Op::ToNumber { dst, src, cache } => "to_number"@ + " "@ + (
            ("r"@ + decimal(dst.0 as nat))
                + ", "@ + ("r"@ + decimal(src.0 as nat))
                + ", "@ + ("ic"@ + decimal(cache.0 as nat))),
            Op::Inc { dst, src, cache } => "inc"@ + " "@ + (
            ("r"@ + decimal(dst.0 as nat))
                + ", "@ + ("r"@ + decimal(src.0 as nat))
                + ", "@ + ("ic"@ + decimal(cache.0 as nat))),
            Op::Dec { dst, src, cache } => "dec"@ + " "@ + (
            ("r"@ + decimal(dst.0 as nat))
                + ", "@ + ("r"@ + decimal(src.0 as nat))
                + ", "@ + ("ic"@ + decimal(cache.0 as nat))),
            Op::Not { dst, src } => "not"@ + " "@ + (
            ("r"@ + decimal(dst.0 as nat))
                + ", "@ + ("r"@ + decimal(src.0 as nat))),
            Op::TypeOf { dst, src } => "type_of"@ + " "@ + (
            ("r"@ + decimal(dst.0 as nat))
                + ", "@ + ("r"@ + decimal(src.0 as nat))),
            Op::GetProp { dst, obj, key, cache } => "get_prop"@ + " "@ + (
            ("r"@ + decimal(dst.0 as nat))
                + ", "@ + ("r"@ + decimal(obj.0 as nat))
                + ", "@ + ("k"@ + decimal(key.0 as nat))
                + ", "@ + ("ic"@ + decimal(cache.0 as nat))),
            Op::SetProp { obj, key, value, cache } => "set_prop"@ + " "@ + (
            ("r"@ + decimal(obj.0 as nat))
                + ", "@ + ("k"@ + decimal(key.0 as nat))
                + ", "@ + ("r"@ + decimal(value.0 as nat))
                + ", "@ + ("ic"@ + decimal(cache.0 as nat))),
            Op::GetIndex { dst, obj, index, cache } => "get_index"@ + " "@ + (
            ("r"@ + decimal(dst.0 as nat))
                + ", "@ + ("r"@ + decimal(obj.0 as nat))
                + ", "@ + ("r"@ + decimal(index.0 as nat))
                + ", "@ + ("ic"@ + decimal(cache.0 as nat))),
            Op::SetIndex { obj, index, value, cache } => "set_index"@ + " "@ + (
            ("r"@ + decimal(obj.0 as nat))
                + ", "@ + ("r"@ + decimal(index.0 as nat))
                + ", "@ + ("r"@ + decimal(value.0 as nat))
                + ", "@ + ("ic"@ + decimal(cache.0 as nat))),
            Op::DeleteProp { dst, obj, key } => "delete_prop"@ + " "@ + (
            ("r"@ + decimal(dst.0 as nat))
                + ", "@ + ("r"@ + decimal(obj.0 as nat))
                + ", "@ + ("k"@ + decimal(key.0 as nat))),
            Op::DeleteIndex { dst, obj, index } => "delete_index"@ + " "@ + (
            ("r"@ + decimal(dst.0 as nat))
                + ", "@ + ("r"@ + decimal(obj.0 as nat))
                + ", "@ + ("r"@ + decimal(index.0 as nat))),
            Op::Call { dst, callee, args, argc, cache } => "call"@ + " "@ + (
            ("r"@ + decimal(dst.0 as nat))
                + ", "@ + ("r"@ + decimal(callee.0 as nat))
                + ", "@ + ("r"@ + decimal(args.0 as nat))
                + ", "@ + decimal(argc as nat)
                + ", "@ + ("ic"@ + decimal(cache.0 as nat))),
            Op::CallMethod { dst, obj, key, args, argc, cache } => "call_method"@ + " "@ + (
            ("r"@ + decimal(dst.0 as nat))
                + ", "@ + ("r"@ + decimal(obj.0 as nat))
                + ", "@ + ("k"@ + decimal(key.0 as nat))
                + ", "@ + ("r"@ + decimal(args.0 as nat))
                + ", "@ + decimal(argc as nat)
                + ", "@ + ("ic"@ + decimal(cache.0 as nat))),
            Op::Return { src } => "return"@ + " "@ + (
            ("r"@ + decimal(src.0 as nat))),
            Op::Throw { src } => "throw"@ + " "@ + (
            ("r"@ + decimal(src.0 as nat))),
            Op::NewClosure { dst, blueprint } => "new_closure"@ + " "@ + (
            ("r"@ + decimal(dst.0 as nat))
                + ", "@ + ("fn"@ + decimal(blueprint.0 as nat))),
            Op::NewObject { dst, slots } => "new_object"@ + " "@ + (
            ("r"@ + decimal(dst.0 as nat))
                + ", "@ + decimal(slots as nat)),
            Op::Jump { target } => "jump"@ + " "@ + (
            ("@"@ + decimal(target.0 as nat))),
            Op::JumpIfTrue { cond, target } => "jump_if_true"@ + " "@ + (
            ("r"@ + decimal(cond.0 as nat))
                + ", "@ + ("@"@ + decimal(target.0 as nat))),
            Op::JumpIfFalse { cond, target } => "jump_if_false"@ + " "@ + (
            ("r"@ + decimal(cond.0 as nat))
                + ", "@ + ("@"@ + decimal(target.0 as nat))),
            Op::LoopBackEdge { target, profile } => "loop_back_edge"@ + " "@ + (
            ("@"@ + decimal(target.0 as nat))
                + ", "@ + ("ic"@ + decimal(profile.0 as nat))),
        },
{
    lemma_operands_are_listed(op.operands());
}

/// Operands stand in a row, a comma and a space between each two.
proof fn lemma_operands_are_listed(list: Seq<Operand>)
    ensures
        list.len() == 1 ==> listed(list) == list[0].text(),
        list.len() == 2 ==> listed(list) == list[0].text() + ", "@ + list[1].text(),
        list.len() == 3 ==> listed(list) == list[0].text() + ", "@ + list[1].text() + ", "@
            + list[2].text(),
        list.len() == 4 ==> listed(list) == list[0].text() + ", "@ + list[1].text() + ", "@
            + list[2].text() + ", "@ + list[3].text(),
        list.len() == 5 ==> listed(list) == list[0].text() + ", "@ + list[1].text() + ", "@
            + list[2].text() + ", "@ + list[3].text() + ", "@ + list[4].text(),
        list.len() == 6 ==> listed(list) == list[0].text() + ", "@ + list[1].text() + ", "@
            + list[2].text() + ", "@ + list[3].text() + ", "@ + list[4].text() + ", "@
            + list[5].text(),
    decreases list.len(),
{
    if 1 < list.len() <= 6 {
        lemma_operands_are_listed(list.drop_last());
    }
}

/// Where control goes after an instruction. It never reaches the next one after a return, a throw, an
/// assignment to a constant, a jump or a back edge, and may reach it after any other. A jump, taken or
/// not, and a back edge may go to their target, and nothing else goes anywhere but on.
pub proof fn law_where_control_goes_after_an_instruction(op: Op)
    ensures
        op.ends_a_run() <==> match op {
            Op::LoadConst { .. } => false,
            Op::LoadInt { .. } => false,
            Op::LoadUndefined { .. } => false,
            Op::LoadNull { .. } => false,
            Op::LoadBool { .. } => false,
            Op::LoadThis { .. } => false,
            Op::LoadClosure { .. } => false,
            Op::Move { .. } => false,
            Op::LoadUninitialized { .. } => false,
            Op::ThrowIfUninitialized { .. } => false,
            Op::ThrowConstAssignment => true,
            Op::LoadUpvalue { .. } => false,
            Op::StoreUpvalue { .. } => false,
            Op::NewContext { .. } => false,
            Op::LoadGlobal { .. } => false,
            Op::LoadGlobalForTypeof { .. } => false,
            Op::StoreGlobal { .. } => false,
            Op::Add { .. } => false,
            Op::Sub { .. } => false,
            Op::Mul { .. } => false,
            Op::Div { .. } => false,
            Op::Rem { .. } => false,
            Op::Pow { .. } => false,
            Op::BitOr { .. } => false,
            Op::BitXor { .. } => false,
            Op::BitAnd { .. } => false,
            Op::Shl { .. } => false,
            Op::Shr { .. } => false,
            Op::UnsignedShr { .. } => false,
            Op::Equal { .. } => false,
            Op::NotEqual { .. } => false,
            Op::StrictEqual { .. } => false,
            Op::StrictNotEqual { .. } => false,
            Op::Less { .. } => false,
            Op::LessEqual { .. } => false,
            Op::Greater { .. } => false,
            Op::GreaterEqual { .. } => false,
            Op::In { .. } => false,
            Op::InstanceOf { .. } => false,
            Op::Neg { .. } => false,
            Op::BitNot { .. } => false,
            Op::ToNumber { .. } => false,
            Op::Inc { .. } => false,
            Op::Dec { .. } => false,
            Op::Not { .. } => false,
            Op::TypeOf { .. } => false,
            Op::GetProp { .. } => false,
            Op::SetProp { .. } => false,
            Op::GetIndex { .. } => false,
            Op::SetIndex { .. } => false,
            Op::DeleteProp { .. } => false,
            Op::DeleteIndex { .. } => false,
            Op::Call { .. } => false,
            Op::CallMethod { .. } => false,
            Op::Return { .. } => true,
            Op::Throw { .. } => true,
            Op::NewClosure { .. } => false,
            Op::NewObject { .. } => false,
            Op::Jump { .. } => true,
            Op::JumpIfTrue { .. } => false,
            Op::JumpIfFalse { .. } => false,
            Op::LoopBackEdge { .. } => true,
        },
        first_target(op.operands()) == match op {
            Op::Jump { target }
            | Op::JumpIfTrue { target, .. }
            | Op::JumpIfFalse { target, .. }
            | Op::LoopBackEdge { target, .. } => Some(target),
            _ => None::<CodeOffset>,
        },
{
    reveal_with_fuel(target_from, 7);
}

/// Code may end in any instruction that control never gets past, and in no other.
pub proof fn law_code_ends_where_control_cannot_get_past(blueprint: FunctionBlueprint)
    ensures
        blueprint.code@.len() == 0 ==> blueprint.ending_fault() == Some(
            BlueprintError::FallsOffTheEnd,
        ),
        blueprint.code@.len() > 0 ==> (blueprint.ending_fault() is None <==> (
        blueprint.code@.last() is Return || blueprint.code@.last() is Throw
            || blueprint.code@.last() is ThrowConstAssignment || blueprint.code@.last() is Jump
            || blueprint.code@.last() is LoopBackEdge)),
        blueprint.code@.len() > 0 && blueprint.ending_fault() is Some ==> blueprint.ending_fault()
            == Some(BlueprintError::FallsOffTheEnd),
{
}

/// What an instruction refers to: the one constant it reads, the one cache it uses, and the registers
/// it reads or writes, the whole run of arguments of a call among them.
pub proof fn law_what_an_instruction_refers_to(op: Op, register: int)
    ensures
        first_constant(op.operands()) == match op {
            Op::LoadConst { src, .. } => Some(src),
            Op::ThrowIfUninitialized { name, .. } => Some(name),
            Op::LoadGlobal { name, .. } => Some(name),
            Op::LoadGlobalForTypeof { name, .. } => Some(name),
            Op::StoreGlobal { name, .. } => Some(name),
            Op::GetProp { key, .. } => Some(key),
            Op::SetProp { key, .. } => Some(key),
            Op::DeleteProp { key, .. } => Some(key),
            Op::CallMethod { key, .. } => Some(key),
            _ => None::<ConstIndex>,
        },
        first_cache(op.operands()) == match op {
            Op::LoadGlobal { cache, .. } => Some(cache),
            Op::LoadGlobalForTypeof { cache, .. } => Some(cache),
            Op::StoreGlobal { cache, .. } => Some(cache),
            Op::Add { cache, .. } => Some(cache),
            Op::Sub { cache, .. } => Some(cache),
            Op::Mul { cache, .. } => Some(cache),
            Op::Div { cache, .. } => Some(cache),
            Op::Rem { cache, .. } => Some(cache),
            Op::Pow { cache, .. } => Some(cache),
            Op::BitOr { cache, .. } => Some(cache),
            Op::BitXor { cache, .. } => Some(cache),
            Op::BitAnd { cache, .. } => Some(cache),
            Op::Shl { cache, .. } => Some(cache),
            Op::Shr { cache, .. } => Some(cache),
            Op::UnsignedShr { cache, .. } => Some(cache),
            Op::Equal { cache, .. } => Some(cache),
            Op::NotEqual { cache, .. } => Some(cache),
            Op::StrictEqual { cache, .. } => Some(cache),
            Op::StrictNotEqual { cache, .. } => Some(cache),
            Op::Less { cache, .. } => Some(cache),
            Op::LessEqual { cache, .. } => Some(cache),
            Op::Greater { cache, .. } => Some(cache),
            Op::GreaterEqual { cache, .. } => Some(cache),
            Op::In { cache, .. } => Some(cache),
            Op::InstanceOf { cache, .. } => Some(cache),
            Op::Neg { cache, .. } => Some(cache),
            Op::BitNot { cache, .. } => Some(cache),
            Op::ToNumber { cache, .. } => Some(cache),
            Op::Inc { cache, .. } => Some(cache),
            Op::Dec { cache, .. } => Some(cache),
            Op::GetProp { cache, .. } => Some(cache),
            Op::SetProp { cache, .. } => Some(cache),
            Op::GetIndex { cache, .. } => Some(cache),
            Op::SetIndex { cache, .. } => Some(cache),
            Op::Call { cache, .. } => Some(cache),
            Op::CallMethod { cache, .. } => Some(cache),
            Op::LoopBackEdge { profile, .. } => Some(profile),
            _ => None::<CacheIndex>,
        },
        op.names_register(register) <==> match op {
            Op::LoadConst { dst, .. } => register == dst.0,
            Op::LoadInt { dst, .. } => register == dst.0,
            Op::LoadUndefined { dst } => register == dst.0,
            Op::LoadNull { dst } => register == dst.0,
            Op::LoadBool { dst, .. } => register == dst.0,
            Op::LoadThis { dst } => register == dst.0,
            Op::LoadClosure { dst } => register == dst.0,
            Op::Move { dst, src } => register == dst.0 || register == src.0,
            Op::LoadUninitialized { dst } => register == dst.0,
            Op::ThrowIfUninitialized { src, .. } => register == src.0,
            Op::ThrowConstAssignment => false,
            Op::LoadUpvalue { dst, .. } => register == dst.0,
            Op::StoreUpvalue { src, .. } => register == src.0,
            Op::NewContext { .. } => false,
            Op::LoadGlobal { dst, .. } => register == dst.0,
            Op::LoadGlobalForTypeof { dst, .. } => register == dst.0,
            Op::StoreGlobal { src, .. } => register == src.0,
            Op::Add { dst, lhs, rhs, .. } => register == dst.0 || register == lhs.0 || register == rhs.0,
            Op::Sub { dst, lhs, rhs, .. } => register == dst.0 || register == lhs.0 || register == rhs.0,
            Op::Mul { dst, lhs, rhs, .. } => register == dst.0 || register == lhs.0 || register == rhs.0,
            Op::Div { dst, lhs, rhs, .. } => register == dst.0 || register == lhs.0 || register == rhs.0,
            Op::Rem { dst, lhs, rhs, .. } => register == dst.0 || register == lhs.0 || register == rhs.0,
            Op::Pow { dst, lhs, rhs, .. } => register == dst.0 || register == lhs.0 || register == rhs.0,
            Op::BitOr { dst, lhs, rhs, .. } => register == dst.0 || register == lhs.0 || register == rhs.0,
            Op::BitXor { dst, lhs, rhs, .. } => register == dst.0 || register == lhs.0 || register == rhs.0,
            Op::BitAnd { dst, lhs, rhs, .. } => register == dst.0 || register == lhs.0 || register == rhs.0,
            Op::Shl { dst, lhs, rhs, .. } => register == dst.0 || register == lhs.0 || register == rhs.0,
            Op::Shr { dst, lhs, rhs, .. } => register == dst.0 || register == lhs.0 || register == rhs.0,
            Op::UnsignedShr { dst, lhs, rhs, .. } => register == dst.0 || register == lhs.0 || register == rhs.0,
            Op::Equal { dst, lhs, rhs, .. } => register == dst.0 || register == lhs.0 || register == rhs.0,
            Op::NotEqual { dst, lhs, rhs, .. } => register == dst.0 || register == lhs.0 || register == rhs.0,
            Op::StrictEqual { dst, lhs, rhs, .. } => register == dst.0 || register == lhs.0 || register == rhs.0,
            Op::StrictNotEqual { dst, lhs, rhs, .. } => register == dst.0 || register == lhs.0 || register == rhs.0,
            Op::Less { dst, lhs, rhs, .. } => register == dst.0 || register == lhs.0 || register == rhs.0,
            Op::LessEqual { dst, lhs, rhs, .. } => register == dst.0 || register == lhs.0 || register == rhs.0,
            Op::Greater { dst, lhs, rhs, .. } => register == dst.0 || register == lhs.0 || register == rhs.0,
            Op::GreaterEqual { dst, lhs, rhs, .. } => register == dst.0 || register == lhs.0 || register == rhs.0,
            Op::In { dst, lhs, rhs, .. } => register == dst.0 || register == lhs.0 || register == rhs.0,
            Op::InstanceOf { dst, lhs, rhs, .. } => register == dst.0 || register == lhs.0 || register == rhs.0,
            Op::Neg { dst, src, .. } => register == dst.0 || register == src.0,
            Op::BitNot { dst, src, .. } => register == dst.0 || register == src.0,
            Op::ToNumber { dst, src, .. } => register == dst.0 || register == src.0,
            Op::Inc { dst, src, .. } => register == dst.0 || register == src.0,
            Op::Dec { dst, src, .. } => register == dst.0 || register == src.0,
            Op::Not { dst, src } => register == dst.0 || register == src.0,
            Op::TypeOf { dst, src } => register == dst.0 || register == src.0,
            Op::GetProp { dst, obj, .. } => register == dst.0 || register == obj.0,
            Op::SetProp { obj, value, .. } => register == obj.0 || register == value.0,
            Op::GetIndex { dst, obj, index, .. } => register == dst.0 || register == obj.0 || register == index.0,
            Op::SetIndex { obj, index, value, .. } => register == obj.0 || register == index.0 || register == value.0,
            Op::DeleteProp { dst, obj, .. } => register == dst.0 || register == obj.0,
            Op::DeleteIndex { dst, obj, index } => register == dst.0 || register == obj.0 || register == index.0,
            Op::Call { dst, callee, args, argc, .. } => register == dst.0 || register == callee.0 || register == args.0 || args.0 <= register < args.0 + argc,
            Op::CallMethod { dst, obj, args, argc, .. } => register == dst.0 || register == obj.0 || register == args.0 || args.0 <= register < args.0 + argc,
            Op::Return { src } => register == src.0,
            Op::Throw { src } => register == src.0,
            Op::NewClosure { dst, .. } => register == dst.0,
            Op::NewObject { dst, .. } => register == dst.0,
            Op::Jump { .. } => false,
            Op::JumpIfTrue { cond, .. } => register == cond.0,
            Op::JumpIfFalse { cond, .. } => register == cond.0,
            Op::LoopBackEdge { .. } => false,
        },
{
    reveal_with_fuel(constant_from, 7);
    reveal_with_fuel(cache_from, 7);
    let list = op.operands();
    if 0 <= register <= u16::MAX {
        let wanted = Operand::Register(Register(register as u16));
        if list.contains(wanted) {
            let i = choose|i: int| 0 <= i < list.len() && list[i] == wanted;
            assert(i == 0 || i == 1 || i == 2 || i == 3 || i == 4 || i == 5);
        }
        if list.len() > 0 && list[0] == wanted {
            assert(list.contains(wanted));
        }
        if list.len() > 1 && list[1] == wanted {
            assert(list.contains(wanted));
        }
        if list.len() > 2 && list[2] == wanted {
            assert(list.contains(wanted));
        }
        if list.len() > 3 && list[3] == wanted {
            assert(list.contains(wanted));
        }
        assert(Register(register as u16).0 == register);
    }
}

/// A jump that is patched is the same jump to the place it was told, and anything else stays as it is.
pub proof fn law_a_patched_jump_is_the_same_jump(op: Op, to: CodeOffset)
    ensures
        op is Jump ==> op.retargeted(to) == (Op::Jump { target: to }),
        op matches Op::JumpIfTrue { cond, .. } ==> op.retargeted(to) == (Op::JumpIfTrue {
            cond,
            target: to,
        }),
        op matches Op::JumpIfFalse { cond, .. } ==> op.retargeted(to) == (Op::JumpIfFalse {
            cond,
            target: to,
        }),
        op matches Op::LoopBackEdge { profile, .. } ==> op.retargeted(to) == (Op::LoopBackEdge {
            target: to,
            profile,
        }),
        !(op is Jump || op is JumpIfTrue || op is JumpIfFalse || op is LoopBackEdge)
            ==> op.retargeted(to) == op,
{
}

} // verus!
