//! The instruction set.
//!
//! Register based and three address. Every operand names where its input lives instead of implying
//! it, which costs a byte or two per instruction and spares an optimising tier from reconstructing a
//! value stack.
//!
//! Jumps carry an absolute instruction index rather than a signed offset, because an absolute index
//! is the one that cannot be wrong by a sign.
//!
//! Every opcode that can be polymorphic carries an inline cache slot index. `Not` and `TypeOf` do
//! not carry one: both are total functions of the value's tag, so there is nothing for a cache to
//! learn.

use vstd::prelude::*;

use crate::ir::constant::ConstIndex;
use crate::text::{decimal, push_decimal, push_signed, push_truth, signed, truth};

verus! {

/// A virtual register index within a frame.
#[derive(Clone, Copy, Debug, PartialEq, Eq, PartialOrd, Ord, Hash, Structural)]
pub struct Register(pub u16);

/// An index into a blueprint's inline cache slab.
///
/// Caches are allocated per site at lowering time rather than lazily, so that compiled code can
/// address them with a constant offset.
#[derive(Clone, Copy, Debug, PartialEq, Eq, Hash, Structural)]
pub struct CacheIndex(pub u32);

/// An instruction index within one blueprint's code, used as a jump target.
#[derive(Clone, Copy, Debug, PartialEq, Eq, PartialOrd, Ord, Hash, Structural)]
pub struct CodeOffset(pub u32);

/// An index into the enclosing blueprint's list of nested blueprints.
///
/// Nested rather than a flat per module table, because a blueprint plus everything reachable from it
/// is then one self contained thing to hand over, with no separate table to keep in step.
#[derive(Clone, Copy, Debug, PartialEq, Eq, Hash, Structural)]
pub struct BlueprintIndex(pub u32);

impl Register {
    /// How a listing writes a register.
    pub open spec fn text(self) -> Seq<char> {
        "r"@ + decimal(self.0 as nat)
    }

    /// The register as a listing writes it, `r7`.
    pub fn to_string(&self) -> (out: String)
        ensures
            out@ == self.text(),
    {
        let mut out = String::new();
        Operand::Register(*self).write(&mut out);
        assert(out@ =~= self.text());
        out
    }
}

impl CacheIndex {
    /// How a listing writes a cache slot.
    pub open spec fn text(self) -> Seq<char> {
        "ic"@ + decimal(self.0 as nat)
    }

    /// The slot as a listing writes it, `ic7`.
    pub fn to_string(&self) -> (out: String)
        ensures
            out@ == self.text(),
    {
        let mut out = String::new();
        Operand::Cache(*self).write(&mut out);
        assert(out@ =~= self.text());
        out
    }
}

impl CodeOffset {
    /// How a listing writes a jump target.
    pub open spec fn text(self) -> Seq<char> {
        "@"@ + decimal(self.0 as nat)
    }

    /// The target as a listing writes it, `@7`.
    pub fn to_string(&self) -> (out: String)
        ensures
            out@ == self.text(),
    {
        let mut out = String::new();
        Operand::Target(*self).write(&mut out);
        assert(out@ =~= self.text());
        out
    }
}

impl BlueprintIndex {
    /// How a listing writes a nested function.
    pub open spec fn text(self) -> Seq<char> {
        "fn"@ + decimal(self.0 as nat)
    }

    /// The nested function as a listing writes it, `fn7`.
    pub fn to_string(&self) -> (out: String)
        ensures
            out@ == self.text(),
    {
        let mut out = String::new();
        Operand::Function(*self).write(&mut out);
        assert(out@ =~= self.text());
        out
    }
}

/// A three address bytecode instruction.
#[allow(inconsistent_fields)]
#[derive(Clone, Copy, Debug, PartialEq, Eq, Structural)]
pub enum Op {
    /// `dst = constants[src]`
    LoadConst { dst: Register, src: ConstIndex },
    /// `dst = value`, for an integer valued literal small enough to be an immediate.
    ///
    /// Saves a pool entry and a load for the numbers real code is full of, which are loop counters
    /// and array indices and the constant one.
    LoadInt { dst: Register, value: i32 },
    /// `dst = undefined`
    LoadUndefined { dst: Register },
    /// `dst = null`
    LoadNull { dst: Register },
    /// `dst = value`
    LoadBool { dst: Register, value: bool },
    /// `dst = this`.
    LoadThis { dst: Register },
    /// `dst = the closure that is running`, which is what a named function expression sees itself as.
    ///
    /// `const f = function me() { return me; }` binds `me` inside the function and nowhere else, and
    /// the value it binds is the closure being called rather than whatever `f` holds now. There is
    /// nothing else to read it from, so it is an opcode.
    LoadClosure { dst: Register },
    /// `dst = src`
    Move { dst: Register, src: Register },

    /// Write the hole into `dst`, the value that makes a dead zone check fire.
    ///
    /// Written into a `let` or `const` slot when its scope is entered, so that a read before the
    /// declaration runs finds something that is not a value. Only emitted for bindings that some
    /// reference actually checks, so the ordinary `let x = 1;` costs nothing.
    LoadUninitialized { dst: Register },
    /// Throw a ReferenceError naming `constants[name]` if `src` holds the hole.
    ThrowIfUninitialized { src: Register, name: ConstIndex },
    /// Throw the TypeError that assigning to a `const` binding produces.
    ///
    /// A separate opcode rather than a general throw because the message has no operands in it, and
    /// because Node reports this at run time rather than as an early error, so lowering has to emit
    /// something that runs.
    ThrowConstAssignment,

    /// Read cell number `slot` from the environment `hops` links up the chain into `dst`.
    LoadUpvalue { dst: Register, hops: u16, slot: u16 },
    /// Write `src` into cell number `slot` in the environment `hops` links up the chain.
    StoreUpvalue { hops: u16, slot: u16, src: Register },
    /// Allocate this frame's environment with room for `size` cells and link it to the enclosing one.
    ///
    /// Emitted only for a function that has at least one captured binding, which is what makes hops
    /// count environments rather than function boundaries.
    NewContext { size: u16 },

    /// Read the global named `constants[name]` into `dst`, throwing if there is no such binding.
    LoadGlobal { dst: Register, name: ConstIndex, cache: CacheIndex },
    /// Read the global named `constants[name]` into `dst`, or undefined if there is no such binding.
    ///
    /// The one place in the language where reading an undeclared name is not an error, which is why
    /// it cannot be a load followed by a `TypeOf` and has to be its own opcode.
    LoadGlobalForTypeof { dst: Register, name: ConstIndex, cache: CacheIndex },
    /// Write `src` into the global named `constants[name]`.
    StoreGlobal { name: ConstIndex, src: Register, cache: CacheIndex },

    /// `dst = lhs + rhs`, with the full ToPrimitive dance behind the cache.
    Add { dst: Register, lhs: Register, rhs: Register, cache: CacheIndex },
    /// `dst = lhs - rhs`
    Sub { dst: Register, lhs: Register, rhs: Register, cache: CacheIndex },
    /// `dst = lhs * rhs`
    Mul { dst: Register, lhs: Register, rhs: Register, cache: CacheIndex },
    /// `dst = lhs / rhs`
    Div { dst: Register, lhs: Register, rhs: Register, cache: CacheIndex },
    /// `dst = lhs % rhs`
    Rem { dst: Register, lhs: Register, rhs: Register, cache: CacheIndex },
    /// `dst = lhs ** rhs`
    Pow { dst: Register, lhs: Register, rhs: Register, cache: CacheIndex },
    /// `dst = lhs | rhs`
    BitOr { dst: Register, lhs: Register, rhs: Register, cache: CacheIndex },
    /// `dst = lhs ^ rhs`
    BitXor { dst: Register, lhs: Register, rhs: Register, cache: CacheIndex },
    /// `dst = lhs & rhs`
    BitAnd { dst: Register, lhs: Register, rhs: Register, cache: CacheIndex },
    /// `dst = lhs << rhs`
    Shl { dst: Register, lhs: Register, rhs: Register, cache: CacheIndex },
    /// `dst = lhs >> rhs`, the sign propagating shift.
    Shr { dst: Register, lhs: Register, rhs: Register, cache: CacheIndex },
    /// `dst = lhs >>> rhs`, the zero filling shift.
    UnsignedShr { dst: Register, lhs: Register, rhs: Register, cache: CacheIndex },

    /// `dst = lhs == rhs`
    Equal { dst: Register, lhs: Register, rhs: Register, cache: CacheIndex },
    /// `dst = lhs != rhs`
    NotEqual { dst: Register, lhs: Register, rhs: Register, cache: CacheIndex },
    /// `dst = lhs === rhs`
    StrictEqual { dst: Register, lhs: Register, rhs: Register, cache: CacheIndex },
    /// `dst = lhs !== rhs`
    StrictNotEqual { dst: Register, lhs: Register, rhs: Register, cache: CacheIndex },
    /// `dst = lhs < rhs`
    Less { dst: Register, lhs: Register, rhs: Register, cache: CacheIndex },
    /// `dst = lhs <= rhs`
    LessEqual { dst: Register, lhs: Register, rhs: Register, cache: CacheIndex },
    /// `dst = lhs > rhs`
    Greater { dst: Register, lhs: Register, rhs: Register, cache: CacheIndex },
    /// `dst = lhs >= rhs`
    GreaterEqual { dst: Register, lhs: Register, rhs: Register, cache: CacheIndex },
    /// `dst = lhs in rhs`
    In { dst: Register, lhs: Register, rhs: Register, cache: CacheIndex },
    /// `dst = lhs instanceof rhs`
    InstanceOf { dst: Register, lhs: Register, rhs: Register, cache: CacheIndex },

    /// `dst = -src`
    Neg { dst: Register, src: Register, cache: CacheIndex },
    /// `dst = ~src`
    BitNot { dst: Register, src: Register, cache: CacheIndex },
    /// `dst = +src`, which is ToNumber and not a no operation.
    ToNumber { dst: Register, src: Register, cache: CacheIndex },
    /// `dst = ToNumeric(src) + 1`, the increment half of `++`.
    Inc { dst: Register, src: Register, cache: CacheIndex },
    /// `dst = ToNumeric(src) - 1`, the decrement half of `--`.
    Dec { dst: Register, src: Register, cache: CacheIndex },
    /// `dst = !src`
    Not { dst: Register, src: Register },
    /// `dst = typeof src`
    TypeOf { dst: Register, src: Register },

    /// `dst = obj[constants[key]]`, the operation the whole architecture is judged on.
    GetProp { dst: Register, obj: Register, key: ConstIndex, cache: CacheIndex },
    /// `obj[constants[key]] = value`
    SetProp { obj: Register, key: ConstIndex, value: Register, cache: CacheIndex },
    /// `dst = obj[index]`, with the key computed at run time.
    GetIndex { dst: Register, obj: Register, index: Register, cache: CacheIndex },
    /// `obj[index] = value`
    SetIndex { obj: Register, index: Register, value: Register, cache: CacheIndex },
    /// `dst = delete obj[constants[key]]`
    DeleteProp { dst: Register, obj: Register, key: ConstIndex },
    /// `dst = delete obj[index]`
    DeleteIndex { dst: Register, obj: Register, index: Register },

    /// `dst = callee(args...)`, with the arguments in consecutive registers from `args`.
    ///
    /// Consecutive registers rather than a list, because the callee's frame is built by copying a
    /// contiguous run, and because it is the shape the argument adaptor needs when the count and the
    /// arity disagree. It is a real constraint on the register allocator.
    Call { dst: Register, callee: Register, args: Register, argc: u16, cache: CacheIndex },
    /// `dst = obj[constants[key]](args...)`, with `obj` as the receiver.
    ///
    /// Separate from `Call` so that a method call does not have to materialise the function into a
    /// register and then lose track of which object it came from. Preserving the receiver is the
    /// whole difference and it is the most common call shape in real code.
    CallMethod {
        dst: Register,
        obj: Register,
        key: ConstIndex,
        args: Register,
        argc: u16,
        cache: CacheIndex,
    },
    /// Return `src` to the caller.
    Return { src: Register },

    /// Throw `src`.
    ///
    /// Where control goes is not in the instruction. Every function carries a table of the ranges it
    /// protects, so entering a `try` costs nothing and a throw pays for the search.
    Throw { src: Register },

    /// Stamp a closure out of `blueprint`, capturing the current environment, into `dst`.
    NewClosure { dst: Register, blueprint: BlueprintIndex },

    /// Put a new empty object in `dst`, with room inside it for `slots` properties.
    ///
    /// The properties are not here. An object literal is this instruction followed by one
    /// `set_prop` per property, which is three or four instructions where one would do and is
    /// deliberate: a store is the operation that takes the shape transition, so building a literal
    /// out of stores means a literal and an object grown a property at a time reach the same shape,
    /// and neither of them needs a second code path. It also means a literal is already inline
    /// cacheable at each store without a new kind of cache.
    ///
    /// `slots` is a promise about what is about to be stored rather than a limit. It is what makes
    /// the literal one allocation instead of one plus a properties array, and an object that ends up
    /// with more than it was built for grows the ordinary way.
    NewObject { dst: Register, slots: u16 },

    /// Continue at `target`.
    Jump { target: CodeOffset },
    /// Continue at `target` if `cond` is truthy.
    JumpIfTrue { cond: Register, target: CodeOffset },
    /// Continue at `target` if `cond` is falsy.
    JumpIfFalse { cond: Register, target: CodeOffset },
    /// Continue at `target`, counting the iteration and checking the interrupt flag.
    ///
    /// The counter is what triggers tier up, and the interrupt check covers collection safepoints,
    /// timeouts and worker termination. Both hang off a back edge, so a back edge is its own opcode
    /// rather than a jump that happens to point upwards.
    LoopBackEdge { target: CodeOffset, profile: CacheIndex },
}

/// One operand of an instruction, as a listing prints it.
#[derive(Clone, Copy, Debug, PartialEq, Eq, Structural)]
pub enum Operand {
    /// A register the instruction reads or writes.
    Register(Register),
    /// A constant pool entry.
    Constant(ConstIndex),
    /// An inline cache slot.
    Cache(CacheIndex),
    /// Where control may go.
    Target(CodeOffset),
    /// A nested function.
    Function(BlueprintIndex),
    /// A plain count or index.
    Count(u16),
    /// An immediate integer.
    Integer(i32),
    /// An immediate truth value.
    Flag(bool),
}

impl Operand {
    /// How a listing writes the operand.
    pub open spec fn text(self) -> Seq<char> {
        match self {
            Operand::Register(register) => register.text(),
            Operand::Constant(index) => "k"@ + decimal(index.0 as nat),
            Operand::Cache(cache) => cache.text(),
            Operand::Target(target) => target.text(),
            Operand::Function(function) => function.text(),
            Operand::Count(count) => decimal(count as nat),
            Operand::Integer(value) => signed(value as int),
            Operand::Flag(value) => truth(value),
        }
    }

    /// Append the operand to a listing.
    pub(crate) fn write(self, out: &mut String)
        ensures
            final(out)@ == old(out)@ + self.text(),
    {
        let ghost before = out@;
        match self {
            Operand::Register(register) => {
                out.append("r");
                push_decimal(out, register.0 as u64);
            },
            Operand::Constant(index) => {
                out.append("k");
                push_decimal(out, index.0 as u64);
            },
            Operand::Cache(cache) => {
                out.append("ic");
                push_decimal(out, cache.0 as u64);
            },
            Operand::Target(target) => {
                out.append("@");
                push_decimal(out, target.0 as u64);
            },
            Operand::Function(function) => {
                out.append("fn");
                push_decimal(out, function.0 as u64);
            },
            Operand::Count(count) => push_decimal(out, count as u64),
            Operand::Integer(value) => push_signed(out, value as i64),
            Operand::Flag(value) => push_truth(out, value),
        }
        assert(out@ =~= before + self.text());
    }
}

/// Operands with a comma and a space between each two.
pub open spec fn listed(operands: Seq<Operand>) -> Seq<char>
    decreases operands.len(),
{
    if operands.len() == 0 {
        Seq::empty()
    } else if operands.len() == 1 {
        operands[0].text()
    } else {
        listed(operands.drop_last()) + ", "@ + operands.last().text()
    }
}

/// The first inline cache slot in a list of operands, from operand `from` on.
pub open spec fn cache_from(operands: Seq<Operand>, from: int) -> Option<CacheIndex>
    decreases operands.len() - from,
{
    if from < 0 || from >= operands.len() {
        None
    } else {
        match operands[from] {
            Operand::Cache(cache) => Some(cache),
            _ => cache_from(operands, from + 1),
        }
    }
}

/// The first inline cache slot in a list of operands.
pub open spec fn first_cache(operands: Seq<Operand>) -> Option<CacheIndex> {
    cache_from(operands, 0)
}

/// The first constant pool entry in a list of operands, from operand `from` on.
pub open spec fn constant_from(operands: Seq<Operand>, from: int) -> Option<ConstIndex>
    decreases operands.len() - from,
{
    if from < 0 || from >= operands.len() {
        None
    } else {
        match operands[from] {
            Operand::Constant(index) => Some(index),
            _ => constant_from(operands, from + 1),
        }
    }
}

/// The first constant pool entry in a list of operands.
pub open spec fn first_constant(operands: Seq<Operand>) -> Option<ConstIndex> {
    constant_from(operands, 0)
}

/// The first jump target in a list of operands, from operand `from` on.
pub open spec fn target_from(operands: Seq<Operand>, from: int) -> Option<CodeOffset>
    decreases operands.len() - from,
{
    if from < 0 || from >= operands.len() {
        None
    } else {
        match operands[from] {
            Operand::Target(target) => Some(target),
            _ => target_from(operands, from + 1),
        }
    }
}

/// The first jump target in a list of operands.
pub open spec fn first_target(operands: Seq<Operand>) -> Option<CodeOffset> {
    target_from(operands, 0)
}

impl Op {
    /// The name a listing gives the instruction.
    pub open spec fn mnemonic(self) -> Seq<char> {
        match self {
            Op::LoadConst { .. } => "load_const"@,
            Op::LoadInt { .. } => "load_int"@,
            Op::LoadUndefined { .. } => "load_undefined"@,
            Op::LoadNull { .. } => "load_null"@,
            Op::LoadBool { .. } => "load_bool"@,
            Op::LoadThis { .. } => "load_this"@,
            Op::LoadClosure { .. } => "load_closure"@,
            Op::Move { .. } => "move"@,
            Op::LoadUninitialized { .. } => "load_uninitialized"@,
            Op::ThrowIfUninitialized { .. } => "throw_if_uninitialized"@,
            Op::ThrowConstAssignment => "throw_const_assignment"@,
            Op::LoadUpvalue { .. } => "load_upvalue"@,
            Op::StoreUpvalue { .. } => "store_upvalue"@,
            Op::NewContext { .. } => "new_context"@,
            Op::LoadGlobal { .. } => "load_global"@,
            Op::LoadGlobalForTypeof { .. } => "load_global_for_typeof"@,
            Op::StoreGlobal { .. } => "store_global"@,
            Op::Add { .. } => "add"@,
            Op::Sub { .. } => "sub"@,
            Op::Mul { .. } => "mul"@,
            Op::Div { .. } => "div"@,
            Op::Rem { .. } => "rem"@,
            Op::Pow { .. } => "pow"@,
            Op::BitOr { .. } => "bit_or"@,
            Op::BitXor { .. } => "bit_xor"@,
            Op::BitAnd { .. } => "bit_and"@,
            Op::Shl { .. } => "shl"@,
            Op::Shr { .. } => "shr"@,
            Op::UnsignedShr { .. } => "unsigned_shr"@,
            Op::Equal { .. } => "equal"@,
            Op::NotEqual { .. } => "not_equal"@,
            Op::StrictEqual { .. } => "strict_equal"@,
            Op::StrictNotEqual { .. } => "strict_not_equal"@,
            Op::Less { .. } => "less"@,
            Op::LessEqual { .. } => "less_equal"@,
            Op::Greater { .. } => "greater"@,
            Op::GreaterEqual { .. } => "greater_equal"@,
            Op::In { .. } => "in"@,
            Op::InstanceOf { .. } => "instance_of"@,
            Op::Neg { .. } => "neg"@,
            Op::BitNot { .. } => "bit_not"@,
            Op::ToNumber { .. } => "to_number"@,
            Op::Inc { .. } => "inc"@,
            Op::Dec { .. } => "dec"@,
            Op::Not { .. } => "not"@,
            Op::TypeOf { .. } => "type_of"@,
            Op::GetProp { .. } => "get_prop"@,
            Op::SetProp { .. } => "set_prop"@,
            Op::GetIndex { .. } => "get_index"@,
            Op::SetIndex { .. } => "set_index"@,
            Op::DeleteProp { .. } => "delete_prop"@,
            Op::DeleteIndex { .. } => "delete_index"@,
            Op::Call { .. } => "call"@,
            Op::CallMethod { .. } => "call_method"@,
            Op::Return { .. } => "return"@,
            Op::Throw { .. } => "throw"@,
            Op::NewClosure { .. } => "new_closure"@,
            Op::NewObject { .. } => "new_object"@,
            Op::Jump { .. } => "jump"@,
            Op::JumpIfTrue { .. } => "jump_if_true"@,
            Op::JumpIfFalse { .. } => "jump_if_false"@,
            Op::LoopBackEdge { .. } => "loop_back_edge"@,
        }
    }

    /// The operands of the instruction, in the order a listing prints them.
    pub open spec fn operands(self) -> Seq<Operand> {
        match self {
            Op::LoadConst { dst, src } => seq![Operand::Register(dst), Operand::Constant(src)],
            Op::LoadInt { dst, value } => seq![Operand::Register(dst), Operand::Integer(value)],
            Op::LoadUndefined { dst }
            | Op::LoadNull { dst }
            | Op::LoadThis { dst }
            | Op::LoadClosure { dst }
            | Op::LoadUninitialized { dst } => seq![Operand::Register(dst)],
            Op::LoadBool { dst, value } => seq![Operand::Register(dst), Operand::Flag(value)],
            Op::Move { dst, src }
            | Op::Not { dst, src }
            | Op::TypeOf { dst, src } => seq![Operand::Register(dst), Operand::Register(src)],
            Op::ThrowIfUninitialized { src, name } => seq![
                Operand::Register(src), Operand::Constant(name),
            ],
            Op::ThrowConstAssignment => Seq::empty(),
            Op::LoadUpvalue { dst, hops, slot } => seq![
                Operand::Register(dst), Operand::Count(hops), Operand::Count(slot),
            ],
            Op::StoreUpvalue { hops, slot, src } => seq![
                Operand::Count(hops), Operand::Count(slot), Operand::Register(src),
            ],
            Op::NewContext { size } => seq![Operand::Count(size)],
            Op::LoadGlobal { dst, name, cache }
            | Op::LoadGlobalForTypeof { dst, name, cache } => seq![
                Operand::Register(dst), Operand::Constant(name), Operand::Cache(cache),
            ],
            Op::StoreGlobal { name, src, cache } => seq![
                Operand::Constant(name), Operand::Register(src), Operand::Cache(cache),
            ],
            Op::Add { dst, lhs, rhs, cache }
            | Op::Sub { dst, lhs, rhs, cache }
            | Op::Mul { dst, lhs, rhs, cache }
            | Op::Div { dst, lhs, rhs, cache }
            | Op::Rem { dst, lhs, rhs, cache }
            | Op::Pow { dst, lhs, rhs, cache }
            | Op::BitOr { dst, lhs, rhs, cache }
            | Op::BitXor { dst, lhs, rhs, cache }
            | Op::BitAnd { dst, lhs, rhs, cache }
            | Op::Shl { dst, lhs, rhs, cache }
            | Op::Shr { dst, lhs, rhs, cache }
            | Op::UnsignedShr { dst, lhs, rhs, cache }
            | Op::Equal { dst, lhs, rhs, cache }
            | Op::NotEqual { dst, lhs, rhs, cache }
            | Op::StrictEqual { dst, lhs, rhs, cache }
            | Op::StrictNotEqual { dst, lhs, rhs, cache }
            | Op::Less { dst, lhs, rhs, cache }
            | Op::LessEqual { dst, lhs, rhs, cache }
            | Op::Greater { dst, lhs, rhs, cache }
            | Op::GreaterEqual { dst, lhs, rhs, cache }
            | Op::In { dst, lhs, rhs, cache }
            | Op::InstanceOf { dst, lhs, rhs, cache } => seq![
                Operand::Register(dst),
                Operand::Register(lhs),
                Operand::Register(rhs),
                Operand::Cache(cache),
            ],
            Op::Neg { dst, src, cache }
            | Op::BitNot { dst, src, cache }
            | Op::ToNumber { dst, src, cache }
            | Op::Inc { dst, src, cache }
            | Op::Dec { dst, src, cache } => seq![
                Operand::Register(dst), Operand::Register(src), Operand::Cache(cache),
            ],
            Op::GetProp { dst, obj, key, cache } => seq![
                Operand::Register(dst),
                Operand::Register(obj),
                Operand::Constant(key),
                Operand::Cache(cache),
            ],
            Op::SetProp { obj, key, value, cache } => seq![
                Operand::Register(obj),
                Operand::Constant(key),
                Operand::Register(value),
                Operand::Cache(cache),
            ],
            Op::GetIndex { dst, obj, index, cache } => seq![
                Operand::Register(dst),
                Operand::Register(obj),
                Operand::Register(index),
                Operand::Cache(cache),
            ],
            Op::SetIndex { obj, index, value, cache } => seq![
                Operand::Register(obj),
                Operand::Register(index),
                Operand::Register(value),
                Operand::Cache(cache),
            ],
            Op::DeleteProp { dst, obj, key } => seq![
                Operand::Register(dst), Operand::Register(obj), Operand::Constant(key),
            ],
            Op::DeleteIndex { dst, obj, index } => seq![
                Operand::Register(dst), Operand::Register(obj), Operand::Register(index),
            ],
            Op::Call { dst, callee, args, argc, cache } => seq![
                Operand::Register(dst),
                Operand::Register(callee),
                Operand::Register(args),
                Operand::Count(argc),
                Operand::Cache(cache),
            ],
            Op::CallMethod { dst, obj, key, args, argc, cache } => seq![
                Operand::Register(dst),
                Operand::Register(obj),
                Operand::Constant(key),
                Operand::Register(args),
                Operand::Count(argc),
                Operand::Cache(cache),
            ],
            Op::Return { src }
            | Op::Throw { src } => seq![Operand::Register(src)],
            Op::NewClosure { dst, blueprint } => seq![
                Operand::Register(dst), Operand::Function(blueprint),
            ],
            Op::NewObject { dst, slots } => seq![Operand::Register(dst), Operand::Count(slots)],
            Op::Jump { target } => seq![Operand::Target(target)],
            Op::JumpIfTrue { cond, target }
            | Op::JumpIfFalse { cond, target } => seq![
                Operand::Register(cond), Operand::Target(target),
            ],
            Op::LoopBackEdge { target, profile } => seq![
                Operand::Target(target), Operand::Cache(profile),
            ],
        }
    }

    /// How a listing writes the instruction: its mnemonic and then its operands.
    pub open spec fn text(self) -> Seq<char> {
        if self.operands().len() == 0 {
            self.mnemonic()
        } else {
            self.mnemonic() + " "@ + listed(self.operands())
        }
    }

    /// Whether the instruction names register `r`, as an operand or inside a run of arguments.
    pub open spec fn names_register(self, r: int) -> bool {
        ||| exists|register: Register|
            register.0 == r && #[trigger] self.operands().contains(Operand::Register(register))
        ||| match self {
            Op::Call { args, argc, .. } | Op::CallMethod { args, argc, .. } => args.0 <= r < args.0
                + argc,
            _ => false,
        }
    }

    /// Whether the instruction is one of those with two inputs, a destination and a cache.
    pub open spec fn is_three_address(self) -> bool {
        match self {
            Op::Add { .. }
            | Op::Sub { .. }
            | Op::Mul { .. }
            | Op::Div { .. }
            | Op::Rem { .. }
            | Op::Pow { .. }
            | Op::BitOr { .. }
            | Op::BitXor { .. }
            | Op::BitAnd { .. }
            | Op::Shl { .. }
            | Op::Shr { .. }
            | Op::UnsignedShr { .. }
            | Op::Equal { .. }
            | Op::NotEqual { .. }
            | Op::StrictEqual { .. }
            | Op::StrictNotEqual { .. }
            | Op::Less { .. }
            | Op::LessEqual { .. }
            | Op::Greater { .. }
            | Op::GreaterEqual { .. }
            | Op::In { .. }
            | Op::InstanceOf { .. } => true,
            _ => false,
        }
    }

    /// The same jump with another target.
    pub open spec fn retargeted(self, to: CodeOffset) -> Op {
        match self {
            Op::Jump { .. } => Op::Jump { target: to },
            Op::JumpIfTrue { cond, .. } => Op::JumpIfTrue { cond, target: to },
            Op::JumpIfFalse { cond, .. } => Op::JumpIfFalse { cond, target: to },
            Op::LoopBackEdge { profile, .. } => Op::LoopBackEdge { target: to, profile },
            _ => self,
        }
    }

    /// Whether control can never reach the instruction after this one.
    pub open spec fn ends_a_run(self) -> bool {
        ||| self is Return
        ||| self is Jump
        ||| self is LoopBackEdge
        ||| self is Throw
        ||| self is ThrowConstAssignment
    }

    /// The constant pool entry this instruction reads, if it reads one.
    ///
    /// Used by a disassembly to print the name rather than the index, and by anything that has to
    /// know which pool entries a stretch of code depends on.
    pub fn constant(self) -> (index: Option<ConstIndex>)
        ensures
            index == first_constant(self.operands()),
    {
        proof {
            reveal_with_fuel(constant_from, 7);
        }
        match self {
            Op::LoadConst { src, .. } => Some(src),
            Op::ThrowIfUninitialized { name, .. }
            | Op::LoadGlobal { name, .. }
            | Op::LoadGlobalForTypeof { name, .. }
            | Op::StoreGlobal { name, .. } => Some(name),
            Op::GetProp { key, .. }
            | Op::SetProp { key, .. }
            | Op::DeleteProp { key, .. }
            | Op::CallMethod { key, .. } => Some(key),
            _ => None,
        }
    }

    /// Where this instruction can transfer control to, if it can.
    ///
    /// A verifier walks these to check that every target is in range, and the patch list in lowering
    /// is checked against them so that a forward jump left unpatched is a test failure rather than a
    /// jump to instruction zero.
    pub fn jump_target(self) -> (target: Option<CodeOffset>)
        ensures
            target == first_target(self.operands()),
    {
        proof {
            reveal_with_fuel(target_from, 7);
        }
        match self {
            Op::Jump { target }
            | Op::JumpIfTrue { target, .. }
            | Op::JumpIfFalse { target, .. }
            | Op::LoopBackEdge { target, .. } => Some(target),
            _ => None,
        }
    }

    /// Rewrite this instruction's jump target, which is how a forward reference is patched.
    ///
    /// Only a jump has one to rewrite.
    pub fn set_jump_target(&mut self, to: CodeOffset)
        requires
            first_target(old(self).operands()) is Some,
        ensures
            *final(self) == old(self).retargeted(to),
            first_target(final(self).operands()) == Some(to),
    {
        proof {
            reveal_with_fuel(target_from, 7);
        }
        match *self {
            Op::Jump { .. } => {
                *self = Op::Jump { target: to };
            },
            Op::JumpIfTrue { cond, .. } => {
                *self = Op::JumpIfTrue { cond, target: to };
            },
            Op::JumpIfFalse { cond, .. } => {
                *self = Op::JumpIfFalse { cond, target: to };
            },
            Op::LoopBackEdge { profile, .. } => {
                *self = Op::LoopBackEdge { target: to, profile };
            },
            _ => {},
        }
    }

    /// Whether control never continues to the next instruction.
    ///
    /// Lowering uses it to avoid emitting the implicit `return undefined` after a body that already
    /// ended in a return. `verify` uses it to check that the last instruction is one, because control
    /// running off the end of the code is the one bytecode bug the interpreter cannot report.
    ///
    /// A back edge is on the list because it is an unconditional jump with a counter attached, so
    /// nothing after it ever runs.
    pub fn is_terminator(self) -> (ends: bool)
        ensures
            ends == self.ends_a_run(),
    {
        match self {
            Op::Return { .. }
            | Op::Jump { .. }
            | Op::LoopBackEdge { .. }
            | Op::Throw { .. }
            | Op::ThrowConstAssignment => true,
            _ => false,
        }
    }

    /// The instruction as a listing writes it: `add r0, r1, r2, ic3`.
    pub fn to_string(&self) -> (out: String)
        ensures
            out@ == self.text(),
    {
        let mut out = String::new();
        self.write(&mut out);
        assert(out@ =~= self.text());
        out
    }

    /// Append the instruction to a listing.
    pub(crate) fn write(self, out: &mut String)
        ensures
            final(out)@ == old(out)@ + self.text(),
    {
        if self.write_three_address(out) {
            return ;
        }
        let (name, operands) = self.parts();
        write_line(out, name, &operands);
    }

    /// Print the two operand and one destination shape that most of the set has, and say whether
    /// this instruction has it.
    ///
    /// Written once rather than twenty two times, because these instructions differ only in a
    /// mnemonic and a wall of near identical arms is where a copied and half edited line hides.
    fn write_three_address(self, out: &mut String) -> (printed: bool)
        ensures
            printed == self.is_three_address(),
            printed ==> final(out)@ == old(out)@ + self.text(),
            !printed ==> final(out)@ == old(out)@,
    {
        let shared: Option<(&'static str, Register, Register, Register, CacheIndex)> = match self {
            Op::Add { dst, lhs, rhs, cache } => Some(("add", dst, lhs, rhs, cache)),
            Op::Sub { dst, lhs, rhs, cache } => Some(("sub", dst, lhs, rhs, cache)),
            Op::Mul { dst, lhs, rhs, cache } => Some(("mul", dst, lhs, rhs, cache)),
            Op::Div { dst, lhs, rhs, cache } => Some(("div", dst, lhs, rhs, cache)),
            Op::Rem { dst, lhs, rhs, cache } => Some(("rem", dst, lhs, rhs, cache)),
            Op::Pow { dst, lhs, rhs, cache } => Some(("pow", dst, lhs, rhs, cache)),
            Op::BitOr { dst, lhs, rhs, cache } => Some(("bit_or", dst, lhs, rhs, cache)),
            Op::BitXor { dst, lhs, rhs, cache } => Some(("bit_xor", dst, lhs, rhs, cache)),
            Op::BitAnd { dst, lhs, rhs, cache } => Some(("bit_and", dst, lhs, rhs, cache)),
            Op::Shl { dst, lhs, rhs, cache } => Some(("shl", dst, lhs, rhs, cache)),
            Op::Shr { dst, lhs, rhs, cache } => Some(("shr", dst, lhs, rhs, cache)),
            Op::UnsignedShr { dst, lhs, rhs, cache } => Some(("unsigned_shr", dst, lhs, rhs, cache)),
            Op::Equal { dst, lhs, rhs, cache } => Some(("equal", dst, lhs, rhs, cache)),
            Op::NotEqual { dst, lhs, rhs, cache } => Some(("not_equal", dst, lhs, rhs, cache)),
            Op::StrictEqual { dst, lhs, rhs, cache } => Some(("strict_equal", dst, lhs, rhs, cache)),
            Op::StrictNotEqual { dst, lhs, rhs, cache } => Some(("strict_not_equal", dst, lhs, rhs, cache)),
            Op::Less { dst, lhs, rhs, cache } => Some(("less", dst, lhs, rhs, cache)),
            Op::LessEqual { dst, lhs, rhs, cache } => Some(("less_equal", dst, lhs, rhs, cache)),
            Op::Greater { dst, lhs, rhs, cache } => Some(("greater", dst, lhs, rhs, cache)),
            Op::GreaterEqual { dst, lhs, rhs, cache } => Some(("greater_equal", dst, lhs, rhs, cache)),
            Op::In { dst, lhs, rhs, cache } => Some(("in", dst, lhs, rhs, cache)),
            Op::InstanceOf { dst, lhs, rhs, cache } => Some(("instance_of", dst, lhs, rhs, cache)),
            _ => None,
        };
        match shared {
            Some((name, dst, lhs, rhs, cache)) => {
                let operands = vec![
                    Operand::Register(dst),
                    Operand::Register(lhs),
                    Operand::Register(rhs),
                    Operand::Cache(cache),
                ];
                assert(operands@ =~= self.operands());
                write_line(out, name, &operands);
                true
            },
            None => false,
        }
    }

    /// The mnemonic and the operands of every other instruction.
    fn parts(self) -> (parts: (&'static str, Vec<Operand>))
        requires
            !self.is_three_address(),
        ensures
            parts.0@ == self.mnemonic(),
            parts.1@ =~= self.operands(),
    {
        match self {
            Op::LoadConst { dst, src } => ("load_const", vec![Operand::Register(dst), Operand::Constant(src)]),
            Op::LoadInt { dst, value } => ("load_int", vec![Operand::Register(dst), Operand::Integer(value)]),
            Op::LoadUndefined { dst } => ("load_undefined", vec![Operand::Register(dst)]),
            Op::LoadNull { dst } => ("load_null", vec![Operand::Register(dst)]),
            Op::LoadBool { dst, value } => ("load_bool", vec![Operand::Register(dst), Operand::Flag(value)]),
            Op::LoadThis { dst } => ("load_this", vec![Operand::Register(dst)]),
            Op::LoadClosure { dst } => ("load_closure", vec![Operand::Register(dst)]),
            Op::Move { dst, src } => ("move", vec![Operand::Register(dst), Operand::Register(src)]),
            Op::LoadUninitialized { dst } => ("load_uninitialized", vec![Operand::Register(dst)]),
            Op::ThrowIfUninitialized { src, name } => ("throw_if_uninitialized", vec![Operand::Register(src), Operand::Constant(name)]),
            Op::ThrowConstAssignment => ("throw_const_assignment", Vec::new()),
            Op::LoadUpvalue { dst, hops, slot } => ("load_upvalue", vec![Operand::Register(dst), Operand::Count(hops), Operand::Count(slot)]),
            Op::StoreUpvalue { hops, slot, src } => ("store_upvalue", vec![Operand::Count(hops), Operand::Count(slot), Operand::Register(src)]),
            Op::NewContext { size } => ("new_context", vec![Operand::Count(size)]),
            Op::LoadGlobal { dst, name, cache } => ("load_global", vec![Operand::Register(dst), Operand::Constant(name), Operand::Cache(cache)]),
            Op::LoadGlobalForTypeof { dst, name, cache } => ("load_global_for_typeof", vec![Operand::Register(dst), Operand::Constant(name), Operand::Cache(cache)]),
            Op::StoreGlobal { name, src, cache } => ("store_global", vec![Operand::Constant(name), Operand::Register(src), Operand::Cache(cache)]),
            Op::Neg { dst, src, cache } => ("neg", vec![Operand::Register(dst), Operand::Register(src), Operand::Cache(cache)]),
            Op::BitNot { dst, src, cache } => ("bit_not", vec![Operand::Register(dst), Operand::Register(src), Operand::Cache(cache)]),
            Op::ToNumber { dst, src, cache } => ("to_number", vec![Operand::Register(dst), Operand::Register(src), Operand::Cache(cache)]),
            Op::Inc { dst, src, cache } => ("inc", vec![Operand::Register(dst), Operand::Register(src), Operand::Cache(cache)]),
            Op::Dec { dst, src, cache } => ("dec", vec![Operand::Register(dst), Operand::Register(src), Operand::Cache(cache)]),
            Op::Not { dst, src } => ("not", vec![Operand::Register(dst), Operand::Register(src)]),
            Op::TypeOf { dst, src } => ("type_of", vec![Operand::Register(dst), Operand::Register(src)]),
            Op::GetProp { dst, obj, key, cache } => ("get_prop", vec![Operand::Register(dst), Operand::Register(obj), Operand::Constant(key), Operand::Cache(cache)]),
            Op::SetProp { obj, key, value, cache } => ("set_prop", vec![Operand::Register(obj), Operand::Constant(key), Operand::Register(value), Operand::Cache(cache)]),
            Op::GetIndex { dst, obj, index, cache } => ("get_index", vec![Operand::Register(dst), Operand::Register(obj), Operand::Register(index), Operand::Cache(cache)]),
            Op::SetIndex { obj, index, value, cache } => ("set_index", vec![Operand::Register(obj), Operand::Register(index), Operand::Register(value), Operand::Cache(cache)]),
            Op::DeleteProp { dst, obj, key } => ("delete_prop", vec![Operand::Register(dst), Operand::Register(obj), Operand::Constant(key)]),
            Op::DeleteIndex { dst, obj, index } => ("delete_index", vec![Operand::Register(dst), Operand::Register(obj), Operand::Register(index)]),
            Op::Call { dst, callee, args, argc, cache } => ("call", vec![Operand::Register(dst), Operand::Register(callee), Operand::Register(args), Operand::Count(argc), Operand::Cache(cache)]),
            Op::CallMethod { dst, obj, key, args, argc, cache } => ("call_method", vec![Operand::Register(dst), Operand::Register(obj), Operand::Constant(key), Operand::Register(args), Operand::Count(argc), Operand::Cache(cache)]),
            Op::Return { src } => ("return", vec![Operand::Register(src)]),
            Op::Throw { src } => ("throw", vec![Operand::Register(src)]),
            Op::NewClosure { dst, blueprint } => ("new_closure", vec![Operand::Register(dst), Operand::Function(blueprint)]),
            Op::NewObject { dst, slots } => ("new_object", vec![Operand::Register(dst), Operand::Count(slots)]),
            Op::Jump { target } => ("jump", vec![Operand::Target(target)]),
            Op::JumpIfTrue { cond, target } => ("jump_if_true", vec![Operand::Register(cond), Operand::Target(target)]),
            Op::JumpIfFalse { cond, target } => ("jump_if_false", vec![Operand::Register(cond), Operand::Target(target)]),
            Op::LoopBackEdge { target, profile } => ("loop_back_edge", vec![Operand::Target(target), Operand::Cache(profile)]),
            _ => ("", Vec::new()),
        }
    }
}

/// Append a mnemonic and its operands.
fn write_line(out: &mut String, name: &str, operands: &Vec<Operand>)
    ensures
        final(out)@ == old(out)@ + (if operands@.len() == 0 {
            name@
        } else {
            name@ + " "@ + listed(operands@)
        }),
{
    let ghost before = out@;
    out.append(name);
    if operands.len() == 0 {
        return ;
    }
    out.append(" ");
    operands[0].write(out);
    let mut done: usize = 1;
    assert(operands@.take(1) =~= seq![operands@[0]]);
    assert(out@ =~= before + (name@ + " "@ + listed(operands@.take(1))));
    while done < operands.len()
        invariant
            1 <= done <= operands@.len(),
            out@ == before + (name@ + " "@ + listed(operands@.take(done as int))),
        decreases operands@.len() - done,
    {
        out.append(", ");
        operands[done].write(out);
        proof {
            let next = operands@.take(done + 1);
            assert(next.drop_last() =~= operands@.take(done as int));
            assert(next.last() == operands@[done as int]);
        }
        done = done + 1;
        assert(out@ =~= before + (name@ + " "@ + listed(operands@.take(done as int))));
    }
    assert(operands@.take(done as int) =~= operands@);
}

/// A jump that is patched points where it was told to, and nothing else about it changes: its
/// mnemonic, its condition and its counter stay.
pub proof fn law_patching_changes_only_the_target(jump: Op, to: CodeOffset)
    requires
        first_target(jump.operands()) is Some,
    ensures
        first_target(jump.retargeted(to).operands()) == Some(to),
        jump.retargeted(to).mnemonic() == jump.mnemonic(),
        jump.retargeted(to).ends_a_run() == jump.ends_a_run(),
        first_cache(jump.retargeted(to).operands()) == first_cache(jump.operands()),
        forall|r: int| jump.retargeted(to).names_register(r) == jump.names_register(r),
{
    reveal_with_fuel(target_from, 7);
    reveal_with_fuel(cache_from, 7);
    let after = jump.retargeted(to);
    assert forall|register: Register|
        jump.operands().contains(Operand::Register(register)) == after.operands().contains(
            Operand::Register(register),
        ) by {
        let wanted = Operand::Register(register);
        if jump.operands().contains(wanted) {
            let i = choose|i: int|
                0 <= i < jump.operands().len() && jump.operands()[i] == wanted;
            assert(after.operands()[i] == wanted);
        }
        if after.operands().contains(wanted) {
            let i = choose|i: int|
                0 <= i < after.operands().len() && after.operands()[i] == wanted;
            assert(jump.operands()[i] == wanted);
        }
    }
}

} // verus!
