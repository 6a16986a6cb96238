//! Everything the runtime knows about one function before it has ever been called.

use smallvec::SmallVec;
use vstd::prelude::*;

use crate::ir::constant::{ConstIndex, ConstantPool};
use crate::ir::op::{
    cache_from, first_cache, first_constant, first_target, BlueprintIndex, CacheIndex, CodeOffset, Op,
    Register,
};
use crate::ir::position::{in_force, SourcePositions};
use crate::text::{decimal, decimal_string, push_decimal, push_right_aligned, right_aligned};

verus! {

/// The registers of one instruction, in a `smallvec` list that keeps up to three of them inline.
#[verifier::external_body]
pub struct RegisterList {
    items: SmallVec<[Register; 3]>,
}

/// The registers a list holds, in order.
pub uninterp spec fn registers_in(list: RegisterList) -> Seq<Register>;

/// `SmallVec::from_slice` makes a list of the same items in the same order.
#[verifier::external_body]
fn gather(registers: &[Register]) -> (list: RegisterList)
    ensures
        registers_in(list) == registers@,
{
    RegisterList { items: SmallVec::from_slice(registers) }
}

/// `SmallVec::as_slice` gives the items of the list in order.
#[verifier::external_body]
fn gathered(list: &RegisterList) -> (registers: &[Register])
    ensures
        registers@ == registers_in(*list),
{
    list.items.as_slice()
}

/// A blueprint that does not hold together.
///
/// Only ever produced by `verify`, and only ever the result of a bug in whatever built the
/// blueprint. Every variant names the instruction it was found at, because the first question is
/// always which one.
#[allow(inconsistent_fields)]
#[derive(Clone, Copy, Debug, PartialEq, Eq, Structural)]
pub enum BlueprintError {
    /// A jump points outside the code.
    JumpOutOfRange {
        /// The jump instruction.
        at: usize,
        /// Where it points.
        target: u32,
        /// How many instructions there are.
        len: usize,
    },
    /// An instruction names a register the frame does not have.
    RegisterOutOfRange {
        /// The instruction.
        at: usize,
        /// The register it names.
        register: u16,
        /// How many the frame has.
        frame_size: u16,
    },
    /// An instruction names a constant the pool does not have.
    ConstantOutOfRange {
        /// The instruction.
        at: usize,
        /// The index it reads.
        index: u32,
        /// How many constants there are.
        len: usize,
    },
    /// An instruction names a nested function that is not there.
    BlueprintOutOfRange {
        /// The instruction.
        at: usize,
        /// The index it names.
        index: u32,
        /// How many nested blueprints there are.
        len: usize,
    },
    /// An instruction names an inline cache slot that was never allocated.
    CacheOutOfRange {
        /// The instruction.
        at: usize,
        /// The slot it uses.
        index: u32,
        /// How many were allocated.
        slots: u32,
    },
    /// Control runs off the end of the function.
    FallsOffTheEnd,
    /// A handler protects a range that is not a range, or points somewhere that is not code.
    HandlerOutOfRange {
        /// Which entry in the table.
        at: usize,
        /// The first instruction it protects.
        start: u32,
        /// One past the last instruction it protects.
        end: u32,
        /// Where it sends control.
        target: u32,
        /// How many instructions there are.
        len: usize,
    },
    /// A handler stores the caught value into a register the frame does not have.
    HandlerRegisterOutOfRange {
        /// Which entry in the table.
        at: usize,
        /// The register it names.
        register: u16,
        /// How many the frame has.
        frame_size: u16,
    },
}

impl BlueprintError {
    /// What the error says.
    pub open spec fn text(self) -> Seq<char> {
        match self {
            BlueprintError::JumpOutOfRange { at, target, len } => "instruction "@ + decimal(at as nat)
                + " jumps to "@ + decimal(target as nat) + ", which is past the end of "@ + decimal(
                len as nat,
            ) + " instructions"@,
            BlueprintError::RegisterOutOfRange { at, register, frame_size } => "instruction "@
                + decimal(at as nat) + " uses r"@ + decimal(register as nat)
                + ", but the frame holds "@ + decimal(frame_size as nat) + " registers"@,
            BlueprintError::ConstantOutOfRange { at, index, len } => "instruction "@ + decimal(
                at as nat,
            ) + " reads k"@ + decimal(index as nat) + ", but the pool holds "@ + decimal(len as nat)
                + " constants"@,
            BlueprintError::BlueprintOutOfRange { at, index, len } => "instruction "@ + decimal(
                at as nat,
            ) + " closes over fn"@ + decimal(index as nat) + ", but there are "@ + decimal(
                len as nat,
            ) + " nested blueprints"@,
            BlueprintError::CacheOutOfRange { at, index, slots } => "instruction "@ + decimal(
                at as nat,
            ) + " uses ic"@ + decimal(index as nat) + ", but "@ + decimal(slots as nat)
                + " cache slots were allocated"@,
            BlueprintError::FallsOffTheEnd => "the code does not end in a return or a jump"@,
            BlueprintError::HandlerOutOfRange { at, start, end, target, len } => "handler "@
                + decimal(at as nat) + " protects ["@ + decimal(start as nat) + ", "@ + decimal(
                end as nat,
            ) + ") and lands at "@ + decimal(target as nat) + ", in "@ + decimal(len as nat)
                + " instructions"@,
            BlueprintError::HandlerRegisterOutOfRange { at, register, frame_size } => "handler "@
                + decimal(at as nat) + " catches into r"@ + decimal(register as nat)
                + ", but the frame holds "@ + decimal(frame_size as nat) + " registers"@,
        }
    }

    /// What the error says, for a person to read.
    pub fn to_string(&self) -> (out: String)
        ensures
            out@ == self.text(),
    {
        let mut out = String::new();
        match *self {
            BlueprintError::JumpOutOfRange { at, target, len } => {
                out.append("instruction ");
                push_decimal(&mut out, at as u64);
                out.append(" jumps to ");
                push_decimal(&mut out, target as u64);
                out.append(", which is past the end of ");
                push_decimal(&mut out, len as u64);
                out.append(" instructions");
            },
            BlueprintError::RegisterOutOfRange { at, register, frame_size } => {
                out.append("instruction ");
                push_decimal(&mut out, at as u64);
                out.append(" uses r");
                push_decimal(&mut out, register as u64);
                out.append(", but the frame holds ");
                push_decimal(&mut out, frame_size as u64);
                out.append(" registers");
            },
            BlueprintError::ConstantOutOfRange { at, index, len } => {
                out.append("instruction ");
                push_decimal(&mut out, at as u64);
                out.append(" reads k");
                push_decimal(&mut out, index as u64);
                out.append(", but the pool holds ");
                push_decimal(&mut out, len as u64);
                out.append(" constants");
            },
            BlueprintError::BlueprintOutOfRange { at, index, len } => {
                out.append("instruction ");
                push_decimal(&mut out, at as u64);
                out.append(" closes over fn");
                push_decimal(&mut out, index as u64);
                out.append(", but there are ");
                push_decimal(&mut out, len as u64);
                out.append(" nested blueprints");
            },
            BlueprintError::CacheOutOfRange { at, index, slots } => {
                out.append("instruction ");
                push_decimal(&mut out, at as u64);
                out.append(" uses ic");
                push_decimal(&mut out, index as u64);
                out.append(", but ");
                push_decimal(&mut out, slots as u64);
                out.append(" cache slots were allocated");
            },
            BlueprintError::FallsOffTheEnd => {
                out.append("the code does not end in a return or a jump");
            },
            BlueprintError::HandlerOutOfRange { at, start, end, target, len } => {
                out.append("handler ");
                push_decimal(&mut out, at as u64);
                out.append(" protects [");
                push_decimal(&mut out, start as u64);
                out.append(", ");
                push_decimal(&mut out, end as u64);
                out.append(") and lands at ");
                push_decimal(&mut out, target as u64);
                out.append(", in ");
                push_decimal(&mut out, len as u64);
                out.append(" instructions");
            },
            BlueprintError::HandlerRegisterOutOfRange { at, register, frame_size } => {
                out.append("handler ");
                push_decimal(&mut out, at as u64);
                out.append(" catches into r");
                push_decimal(&mut out, register as u64);
                out.append(", but the frame holds ");
                push_decimal(&mut out, frame_size as u64);
                out.append(" registers");
            },
        }
        assert(out@ =~= self.text());
        out
    }
}

/// One protected range of instructions, and where a throw inside it lands.
///
/// A table rather than a stack of active handlers: entering a `try` then costs nothing at all,
/// because there is nothing to push, and a throw pays for the search instead.
///
/// The range is half open, `start` included and `end` excluded, and it covers the protected block
/// only. The handler's own instructions are outside it, which is what stops a throw inside a
/// `catch` from being caught by the `catch` it is in.
#[derive(Clone, Copy, Debug, PartialEq, Eq, Structural)]
pub struct Handler {
    /// The first instruction this handler protects.
    pub start: CodeOffset,
    /// One past the last instruction this handler protects.
    pub end: CodeOffset,
    /// Where control goes when something inside the range throws.
    pub target: CodeOffset,
    /// The register the thrown value is stored into before the handler runs.
    ///
    /// Always a real register, even for `catch {}` with no binding, because the search has to put
    /// the value somewhere.
    pub register: Register,
}

impl Handler {
    /// Whether an instruction is in the range the handler protects.
    pub open spec fn protects(self, at: CodeOffset) -> bool {
        self.start.0 <= at.0 < self.end.0
    }

    /// How a listing writes the handler.
    pub open spec fn text(self) -> Seq<char> {
        "["@ + decimal(self.start.0 as nat) + ", "@ + decimal(self.end.0 as nat) + ") -> "@ + decimal(
            self.target.0 as nat,
        ) + " into r"@ + decimal(self.register.0 as nat)
    }

    fn write(&self, out: &mut String)
        ensures
            final(out)@ == old(out)@ + self.text(),
    {
        let ghost before = out@;
        out.append("[");
        push_decimal(out, self.start.0 as u64);
        out.append(", ");
        push_decimal(out, self.end.0 as u64);
        out.append(") -> ");
        push_decimal(out, self.target.0 as u64);
        out.append(" into r");
        push_decimal(out, self.register.0 as u64);
        assert(out@ =~= before + self.text());
    }
}

/// Everything the runtime knows about one function before it has ever been called.
///
/// Named a blueprint rather than a code object because it is the thing a closure is stamped out of,
/// and because several closures share one.
///
/// A blueprint owns the blueprints of the functions written inside it, so handing one over hands
/// over the whole tree and there is no separate table to keep in step with it.
#[derive(Debug)]
pub struct FunctionBlueprint {
    /// The source name, for stack traces. Empty for an anonymous function.
    pub name: String,
    /// The byte offset the function starts at, for the frame line in a stack trace.
    pub source_offset: u32,
    /// How many virtual registers a frame for this function needs.
    pub frame_size: u16,
    /// Declared parameter count, before rest and default handling.
    pub arity: u16,
    /// How many cells this function's environment holds, and zero if it needs no environment.
    ///
    /// Comes straight from scope analysis, which is the pass that knows which bindings a nested
    /// function reads. A zero here is what makes a closure chain shorter than the function nesting.
    pub cell_slots: u16,
    /// Whether the body runs in strict mode.
    pub strict: bool,
    /// The instruction stream.
    pub code: Vec<Op>,
    /// The constants the instruction stream refers to by index.
    pub constants: ConstantPool,
    /// Which byte of the source each instruction came from.
    pub positions: SourcePositions,
    /// The functions written inside this one, in the order lowering reached them.
    pub blueprints: Vec<FunctionBlueprint>,
    /// How many inline cache slots this function's sites need.
    pub cache_slots: u32,
    /// The ranges this function protects, innermost first.
    ///
    /// Order is the whole of the search rule: the first entry whose range contains the throwing
    /// instruction wins. Lowering emits an entry when it has finished the block the entry protects,
    /// so a `try` nested inside another finishes first and lands earlier in the table.
    pub handlers: Vec<Handler>,
}

impl Default for FunctionBlueprint {
    /// A function with no name, no code and nothing else in it.
    fn default() -> (blueprint: Self)
        ensures
            blueprint.name@ == Seq::<char>::empty(),
            blueprint.source_offset == 0,
            blueprint.frame_size == 0,
            blueprint.arity == 0,
            blueprint.cell_slots == 0,
            !blueprint.strict,
            blueprint.code@ == Seq::<Op>::empty(),
            blueprint.constants.wf(),
            blueprint.constants@.len() == 0,
            blueprint.positions.wf(),
            blueprint.positions@.len() == 0,
            blueprint.blueprints@ == Seq::<FunctionBlueprint>::empty(),
            blueprint.cache_slots == 0,
            blueprint.handlers@ == Seq::<Handler>::empty(),
    {
        FunctionBlueprint {
            name: String::new(),
            source_offset: 0,
            frame_size: 0,
            arity: 0,
            cell_slots: 0,
            strict: false,
            code: Vec::new(),
            constants: ConstantPool::default(),
            positions: SourcePositions::default(),
            blueprints: Vec::new(),
            cache_slots: 0,
            handlers: Vec::new(),
        }
    }
}

/// Whether `highest` is the largest register an instruction names.
pub open spec fn is_highest_register(op: Op, highest: u16) -> bool {
    &&& op.names_register(highest as int)
    &&& forall|r: u16| #[trigger] op.names_register(r as int) ==> r <= highest
}

/// The largest register an instruction names, if it names one.
pub open spec fn highest_named(op: Op) -> Option<u16> {
    if exists|highest: u16| is_highest_register(op, highest) {
        Some(choose|highest: u16| is_highest_register(op, highest))
    } else {
        None
    }
}

/// Whichever of two findings is there, the first one for preference.
pub open spec fn or_else(first: Option<BlueprintError>, second: Option<BlueprintError>) -> Option<
    BlueprintError,
> {
    if first is Some {
        first
    } else {
        second
    }
}

impl FunctionBlueprint {
    /// What is wrong with the jump target of instruction `at`, if anything.
    pub open spec fn jump_fault(self, at: int) -> Option<BlueprintError> {
        match first_target(self.code@[at].operands()) {
            Some(target) if target.0 >= self.code@.len() => Some(
                BlueprintError::JumpOutOfRange {
                    at: at as usize,
                    target: target.0,
                    len: self.code@.len() as usize,
                },
            ),
            _ => None,
        }
    }

    /// What is wrong with the constant that instruction `at` reads, if anything.
    pub open spec fn constant_fault(self, at: int) -> Option<BlueprintError> {
        match first_constant(self.code@[at].operands()) {
            Some(index) if index.0 >= self.constants@.len() => Some(
                BlueprintError::ConstantOutOfRange {
                    at: at as usize,
                    index: index.0,
                    len: self.constants@.len() as usize,
                },
            ),
            _ => None,
        }
    }

    /// What is wrong with the nested function that instruction `at` closes over, if anything.
    pub open spec fn closure_fault(self, at: int) -> Option<BlueprintError> {
        match self.code@[at] {
            Op::NewClosure { blueprint, .. } if blueprint.0 >= self.blueprints@.len() => Some(
                BlueprintError::BlueprintOutOfRange {
                    at: at as usize,
                    index: blueprint.0,
                    len: self.blueprints@.len() as usize,
                },
            ),
            _ => None,
        }
    }

    /// What is wrong with the cache slot of instruction `at`, if anything.
    pub open spec fn cache_fault(self, at: int) -> Option<BlueprintError> {
        match first_cache(self.code@[at].operands()) {
            Some(cache) if cache.0 >= self.cache_slots => Some(
                BlueprintError::CacheOutOfRange {
                    at: at as usize,
                    index: cache.0,
                    slots: self.cache_slots,
                },
            ),
            _ => None,
        }
    }

    /// What is wrong with the registers of instruction `at`, if anything.
    pub open spec fn register_fault(self, at: int) -> Option<BlueprintError> {
        match highest_named(self.code@[at]) {
            Some(register) if register >= self.frame_size => Some(
                BlueprintError::RegisterOutOfRange {
                    at: at as usize,
                    register,
                    frame_size: self.frame_size,
                },
            ),
            _ => None,
        }
    }

    /// The first thing wrong with instruction `at`, if anything.
    pub open spec fn instruction_fault(self, at: int) -> Option<BlueprintError> {
        or_else(
            self.jump_fault(at),
            or_else(
                self.constant_fault(at),
                or_else(
                    self.closure_fault(at),
                    or_else(self.cache_fault(at), self.register_fault(at)),
                ),
            ),
        )
    }

    /// The first thing wrong with handler `at`, if anything.
    pub open spec fn handler_fault(self, at: int) -> Option<BlueprintError> {
        let handler = self.handlers@[at];
        if handler.start.0 >= handler.end.0 || handler.end.0 > self.code@.len() || handler.target.0
            >= self.code@.len() {
            Some(
                BlueprintError::HandlerOutOfRange {
                    at: at as usize,
                    start: handler.start.0,
                    end: handler.end.0,
                    target: handler.target.0,
                    len: self.code@.len() as usize,
                },
            )
        } else if handler.register.0 >= self.frame_size {
            Some(
                BlueprintError::HandlerRegisterOutOfRange {
                    at: at as usize,
                    register: handler.register.0,
                    frame_size: self.frame_size,
                },
            )
        } else {
            None
        }
    }

    /// The first thing wrong with the code from instruction `from` on.
    pub open spec fn code_fault(self, from: int) -> Option<BlueprintError>
        decreases self.code@.len() - from,
    {
        if from >= self.code@.len() {
            None
        } else {
            or_else(self.instruction_fault(from), self.code_fault(from + 1))
        }
    }

    /// The first thing wrong with the handler table from entry `from` on.
    pub open spec fn table_fault(self, from: int) -> Option<BlueprintError>
        decreases self.handlers@.len() - from,
    {
        if from >= self.handlers@.len() {
            None
        } else {
            or_else(self.handler_fault(from), self.table_fault(from + 1))
        }
    }

    /// The error for code that control can run off the end of.
    pub open spec fn ending_fault(self) -> Option<BlueprintError> {
        if self.code@.len() > 0 && self.code@.last().ends_a_run() {
            None
        } else {
            Some(BlueprintError::FallsOffTheEnd)
        }
    }

    /// The first thing wrong with the nested functions from number `from` on.
    pub open spec fn nested_fault(self, from: int) -> Option<BlueprintError>
        decreases self, self.blueprints@.len() - from,
    {
        if from < 0 || from >= self.blueprints@.len() {
            None
        } else {
            or_else(self.blueprints@[from].fault(), self.nested_fault(from + 1))
        }
    }

    /// The first thing wrong with the function: its code, then its handler table, then how its code
    /// ends, then the functions inside it.
    pub open spec fn fault(self) -> Option<BlueprintError>
        decreases self, self.blueprints@.len() + 1,
    {
        or_else(
            self.code_fault(0),
            or_else(self.table_fault(0), or_else(self.ending_fault(), self.nested_fault(0))),
        )
    }

    /// Whether every index in the function points at something that exists, control cannot run off
    /// its end, and the same holds of every function inside it.
    pub open spec fn holds_together(self) -> bool
        decreases self,
    {
        &&& forall|at: int|
            0 <= at < self.code@.len() ==> {
                let op = #[trigger] self.code@[at];
                &&& first_target(op.operands()) matches Some(target) ==> target.0
                    < self.code@.len()
                &&& first_constant(op.operands()) matches Some(index) ==> index.0
                    < self.constants@.len()
                &&& op matches Op::NewClosure { blueprint, .. } ==> blueprint.0
                    < self.blueprints@.len()
                &&& first_cache(op.operands()) matches Some(cache) ==> cache.0 < self.cache_slots
                &&& forall|r: u16| #[trigger] op.names_register(r as int) ==> r < self.frame_size
            }
        &&& forall|at: int|
            0 <= at < self.handlers@.len() ==> {
                let handler = #[trigger] self.handlers@[at];
                &&& handler.start.0 < handler.end.0 <= self.code@.len()
                &&& handler.target.0 < self.code@.len()
                &&& handler.register.0 < self.frame_size
            }
        &&& self.code@.len() > 0
        &&& self.code@.last().ends_a_run()
        &&& forall|i: int|
            0 <= i < self.blueprints@.len() ==> (#[trigger] self.blueprints@[i]).holds_together()
    }

    /// The first entry of the handler table from `from` on whose range contains `at`.
    pub open spec fn first_handler(self, at: CodeOffset, from: int) -> Option<Handler>
        decreases self.handlers@.len() - from,
    {
        if from >= self.handlers@.len() {
            None
        } else if self.handlers@[from].protects(at) {
            Some(self.handlers@[from])
        } else {
            self.first_handler(at, from + 1)
        }
    }

    /// Whether the position tables of the function and of those inside it were recorded in order.
    pub open spec fn wf(self) -> bool
        decreases self,
    {
        &&& self.positions.wf()
        &&& forall|i: int|
            0 <= i < self.blueprints@.len() ==> (#[trigger] self.blueprints@[i]).wf()
    }

    /// The line that opens a listing.
    pub open spec fn heading(self, indent: Seq<char>) -> Seq<char> {
        indent + "function "@ + (if self.name@.len() == 0 {
            "<anonymous>"@
        } else {
            self.name@
        }) + ": "@ + decimal(self.arity as nat) + " params, "@ + decimal(self.frame_size as nat)
            + " registers, "@ + decimal(self.cell_slots as nat) + " cells, "@ + decimal(
            self.cache_slots as nat,
        ) + " caches\n"@
    }

    /// The source position column of instruction `at`.
    pub open spec fn position_text(self, at: int) -> Seq<char> {
        match in_force(self.positions@, at) {
            Some(offset) => decimal(offset as nat),
            _ => "-"@,
        }
    }

    /// What a listing adds after instruction `at` to say which constant it reads.
    pub open spec fn constant_note(self, at: int) -> Seq<char> {
        match first_constant(self.code@[at].operands()) {
            Some(index) if index.0 < self.constants@.len() => "  ; "@
                + self.constants@[index.0 as int].text(),
            _ => Seq::empty(),
        }
    }

    /// The line a listing has for instruction `at`.
    pub open spec fn instruction_line(self, indent: Seq<char>, at: int) -> Seq<char> {
        indent + "  "@ + right_aligned(decimal(at as nat), 4) + "  "@ + right_aligned(
            self.position_text(at),
            6,
        ) + "  "@ + self.code@[at].text() + self.constant_note(at) + "\n"@
    }

    /// The lines of the first `count` instructions.
    pub open spec fn code_lines(self, indent: Seq<char>, count: int) -> Seq<char>
        decreases count,
    {
        if count <= 0 {
            Seq::empty()
        } else {
            self.code_lines(indent, count - 1) + self.instruction_line(indent, count - 1)
        }
    }

    /// The lines of the first `count` handlers.
    pub open spec fn handler_lines(self, indent: Seq<char>, count: int) -> Seq<char>
        decreases count,
    {
        if count <= 0 {
            Seq::empty()
        } else {
            self.handler_lines(indent, count - 1) + (indent + "    "@ + self.handlers@[count
                - 1].text() + "\n"@)
        }
    }

    /// The handler section of a listing, which is absent when there are no handlers.
    pub open spec fn handler_section(self, indent: Seq<char>) -> Seq<char> {
        if self.handlers@.len() == 0 {
            Seq::empty()
        } else {
            indent + "  handlers:\n"@ + self.handler_lines(indent, self.handlers@.len() as int)
        }
    }

    /// The listings of the first `count` nested functions, each after a blank line and its number.
    pub open spec fn nested_listings(self, indent: Seq<char>, count: int) -> Seq<char>
        decreases self, count,
    {
        if count <= 0 || count > self.blueprints@.len() {
            Seq::empty()
        } else {
            self.nested_listings(indent, count - 1) + ("\n"@ + indent + "  fn"@ + decimal(
                (count - 1) as nat,
            ) + ":\n"@ + self.blueprints@[count - 1].listing(indent + "  "@))
        }
    }

    /// The whole listing of the function, every line behind `indent`.
    pub open spec fn listing(self, indent: Seq<char>) -> Seq<char>
        decreases self, self.blueprints@.len() + 1,
    {
        self.heading(indent) + self.code_lines(indent, self.code@.len() as int)
            + self.handler_section(indent) + self.nested_listings(
            indent,
            self.blueprints@.len() as int,
        )
    }

    /// The number of instructions in this blueprint.
    pub fn len(&self) -> (count: usize)
        ensures
            count == self.code@.len(),
    {
        self.code.len()
    }

    /// Whether this blueprint has no instructions at all, which only happens before lowering.
    pub fn is_empty(&self) -> (empty: bool)
        ensures
            empty == (self.code@.len() == 0),
    {
        self.code.len() == 0
    }

    /// Check that every index in the code points at something that exists.
    ///
    /// This is not a type checker for JavaScript and it is not trying to be. It catches the specific
    /// mistakes a lowering pass makes: a forward jump left unpatched, a register past the frame it
    /// sized, a constant index from the wrong pool. Every one of those produces bytecode that runs
    /// and is wrong.
    pub fn verify(&self) -> (verdict: Result<(), BlueprintError>)
        ensures
            verdict is Ok <==> self.fault() is None,
            verdict is Ok <==> self.holds_together(),
            verdict matches Err(error) ==> self.fault() == Some(error),
        decreases self,
    {
        proof {
            lemma_no_fault_is_holding_together(*self);
        }
        let mut at: usize = 0;
        while at < self.code.len()
            invariant
                at <= self.code@.len(),
                self.code_fault(0) == self.code_fault(at as int),
            decreases self.code@.len() - at,
        {
            match self.check_instruction(at) {
                Some(error) => {
                    return Err(error);
                },
                None => {},
            }
            at = at + 1;
        }
        let mut entry: usize = 0;
        while entry < self.handlers.len()
            invariant
                entry <= self.handlers@.len(),
                self.code_fault(0) is None,
                self.table_fault(0) == self.table_fault(entry as int),
            decreases self.handlers@.len() - entry,
        {
            let handler: Handler = self.handlers[entry];
            let (start, end, target) = (handler.start.0, handler.end.0, handler.target.0);
            // An empty range is rejected as well as a backwards one. A `try {}` with nothing in it
            // cannot throw, so lowering has no reason to emit an entry for it.
            if start >= end || end as usize > self.code.len() || target as usize
                >= self.code.len() {
                return Err(
                    BlueprintError::HandlerOutOfRange {
                        at: entry,
                        start,
                        end,
                        target,
                        len: self.code.len(),
                    },
                );
            }
            if handler.register.0 >= self.frame_size {
                return Err(
                    BlueprintError::HandlerRegisterOutOfRange {
                        at: entry,
                        register: handler.register.0,
                        frame_size: self.frame_size,
                    },
                );
            }
            entry = entry + 1;
        }
        if self.code.len() == 0 || !self.code[self.code.len() - 1].is_terminator() {
            return Err(BlueprintError::FallsOffTheEnd);
        }
        let mut inner: usize = 0;
        while inner < self.blueprints.len()
            invariant
                inner <= self.blueprints@.len(),
                self.code_fault(0) is None,
                self.table_fault(0) is None,
                self.ending_fault() is None,
                self.fault() is None <==> self.holds_together(),
                self.nested_fault(0) == self.nested_fault(inner as int),
            decreases self.blueprints@.len() - inner,
        {
            match self.blueprints[inner].verify() {
                Ok(()) => {},
                Err(error) => {
                    return Err(error);
                },
            }
            inner = inner + 1;
        }
        Ok(())
    }

    /// Check one instruction.
    fn check_instruction(&self, at: usize) -> (error: Option<BlueprintError>)
        requires
            at < self.code@.len(),
        ensures
            error == self.instruction_fault(at as int),
    {
        let op: Op = self.code[at];
        if let Some(CodeOffset(target)) = op.jump_target() {
            if target as usize >= self.code.len() {
                return Some(
                    BlueprintError::JumpOutOfRange { at, target, len: self.code.len() },
                );
            }
        }
        if let Some(ConstIndex(index)) = op.constant() {
            if index as usize >= self.constants.len() {
                return Some(
                    BlueprintError::ConstantOutOfRange { at, index, len: self.constants.len() },
                );
            }
        }
        if let Op::NewClosure { blueprint: BlueprintIndex(index), .. } = op {
            if index as usize >= self.blueprints.len() {
                return Some(
                    BlueprintError::BlueprintOutOfRange { at, index, len: self.blueprints.len() },
                );
            }
        }
        if let Some(CacheIndex(index)) = cache_of(op) {
            if index >= self.cache_slots {
                return Some(
                    BlueprintError::CacheOutOfRange { at, index, slots: self.cache_slots },
                );
            }
        }
        if let Some(Register(register)) = highest_register(op) {
            if register >= self.frame_size {
                return Some(
                    BlueprintError::RegisterOutOfRange {
                        at,
                        register,
                        frame_size: self.frame_size,
                    },
                );
            }
        }
        None
    }

    /// The handler that catches a throw at instruction `at`, if this function has one.
    ///
    /// A linear scan, and it stays one until a function with enough handlers to notice turns up.
    /// The table is almost always empty and is one or two entries when it is not.
    pub fn handler_for(&self, at: CodeOffset) -> (handler: Option<&Handler>)
        ensures
            handler is Some <==> self.first_handler(at, 0) is Some,
            handler matches Some(found) ==> self.first_handler(at, 0) == Some(*found),
    {
        let mut entry: usize = 0;
        while entry < self.handlers.len()
            invariant
                entry <= self.handlers@.len(),
                self.first_handler(at, 0) == self.first_handler(at, entry as int),
            decreases self.handlers@.len() - entry,
        {
            let handler = &self.handlers[entry];
            if handler.start.0 <= at.0 && at.0 < handler.end.0 {
                return Some(handler);
            }
            entry = entry + 1;
        }
        None
    }

    /// A readable listing of the code, including every function written inside it.
    ///
    /// A lowering test that asserts on a listing says what it means, while one that asserts on a
    /// vector of enum variants is unreadable at the exact moment it fails.
    pub fn disassemble(&self) -> (out: String)
        requires
            self.wf(),
        ensures
            out@ == self.listing(Seq::empty()),
    {
        let mut out = String::new();
        let indent = String::new();
        assert(indent@ =~= Seq::<char>::empty());
        self.write_listing(&mut out, indent.as_str());
        assert(out@ =~= self.listing(Seq::empty()));
        out
    }

    /// The function as text, which is its listing.
    pub fn to_string(&self) -> (out: String)
        requires
            self.wf(),
        ensures
            out@ == self.listing(Seq::empty()),
    {
        self.disassemble()
    }

    fn write_heading(&self, out: &mut String, indent: &str)
        ensures
            final(out)@ == old(out)@ + self.heading(indent@),
    {
        let ghost before = out@;
        out.append(indent);
        out.append("function ");
        if self.name.as_str().is_empty() {
            out.append("<anonymous>");
        } else {
            out.append(self.name.as_str());
        }
        out.append(": ");
        push_decimal(out, self.arity as u64);
        out.append(" params, ");
        push_decimal(out, self.frame_size as u64);
        out.append(" registers, ");
        push_decimal(out, self.cell_slots as u64);
        out.append(" cells, ");
        push_decimal(out, self.cache_slots as u64);
        out.append(" caches\n");
        assert(out@ =~= before + self.heading(indent@));
    }

    fn write_instruction(&self, out: &mut String, indent: &str, at: usize)
        requires
            at < self.code@.len(),
            self.positions.wf(),
        ensures
            final(out)@ == old(out)@ + self.instruction_line(indent@, at as int),
    {
        let ghost before = out@;
        let op: Op = self.code[at];
        let number = decimal_string(at as u64);
        let offset = match self.positions.offset_at(at) {
            Some(offset) => decimal_string(offset as u64),
            None => "-".to_owned(),
        };
        assert(offset@ == self.position_text(at as int));
        out.append(indent);
        out.append("  ");
        push_right_aligned(out, number.as_str(), 4);
        out.append("  ");
        push_right_aligned(out, offset.as_str(), 6);
        out.append("  ");
        op.write(out);
        let ghost noted = out@;
        match op.constant() {
            Some(index) => match self.constants.get(index) {
                Some(constant) => {
                    let text = constant.to_string();
                    out.append("  ; ");
                    out.append(text.as_str());
                },
                None => {},
            },
            None => {},
        }
        assert(out@ =~= noted + self.constant_note(at as int));
        out.append("\n");
        assert(out@ =~= before + self.instruction_line(indent@, at as int));
    }

    fn write_handlers(&self, out: &mut String, indent: &str)
        ensures
            final(out)@ == old(out)@ + self.handler_section(indent@),
    {
        let ghost before = out@;
        if self.handlers.len() == 0 {
            assert(out@ =~= before + self.handler_section(indent@));
            return ;
        }
        out.append(indent);
        out.append("  handlers:\n");
        let ghost titled = out@;
        assert(titled =~= before + (indent@ + "  handlers:\n"@));
        let mut entry: usize = 0;
        assert(out@ =~= titled + self.handler_lines(indent@, 0));
        while entry < self.handlers.len()
            invariant
                entry <= self.handlers@.len(),
                out@ == titled + self.handler_lines(indent@, entry as int),
            decreases self.handlers@.len() - entry,
        {
            out.append(indent);
            out.append("    ");
            self.handlers[entry].write(out);
            out.append("\n");
            entry = entry + 1;
            assert(out@ =~= titled + self.handler_lines(indent@, entry as int));
        }
        assert(out@ =~= before + self.handler_section(indent@));
    }

    fn write_listing(&self, out: &mut String, indent: &str)
        requires
            self.wf(),
        ensures
            final(out)@ == old(out)@ + self.listing(indent@),
        decreases self,
    {
        let ghost before = out@;
        self.write_heading(out, indent);
        let ghost headed = out@;
        let mut at: usize = 0;
        assert(out@ =~= headed + self.code_lines(indent@, 0));
        while at < self.code.len()
            invariant
                at <= self.code@.len(),
                self.positions.wf(),
                out@ == headed + self.code_lines(indent@, at as int),
            decreases self.code@.len() - at,
        {
            self.write_instruction(out, indent, at);
            at = at + 1;
            assert(out@ =~= headed + self.code_lines(indent@, at as int));
        }
        // After the code, because it is a fact about a range of instructions rather than about any
        // one of them. It is printed at all because it is the only thing that says where a throw
        // goes: no instruction in the listing above mentions a handler.
        self.write_handlers(out, indent);
        let ghost tabled = out@;
        let mut deeper = indent.to_owned();
        deeper.append("  ");
        let mut inner: usize = 0;
        assert(out@ =~= tabled + self.nested_listings(indent@, 0));
        while inner < self.blueprints.len()
            invariant
                inner <= self.blueprints@.len(),
                self.wf(),
                deeper@ == indent@ + "  "@,
                out@ == tabled + self.nested_listings(indent@, inner as int),
            decreases self.blueprints@.len() - inner,
        {
            let ghost start = out@;
            out.append("\n");
            out.append(indent);
            out.append("  fn");
            push_decimal(out, inner as u64);
            out.append(":\n");
            let ghost title = "\n"@ + indent@ + "  fn"@ + decimal(inner as nat) + ":\n"@;
            assert(out@ =~= start + title);
            self.blueprints[inner].write_listing(out, deeper.as_str());
            let ghost body = self.blueprints@[inner as int].listing(indent@ + "  "@);
            assert(out@ =~= start + (title + body));
            inner = inner + 1;
            assert(out@ =~= tabled + self.nested_listings(indent@, inner as int));
        }
        assert(out@ =~= before + self.listing(indent@));
    }
}

/// The inline cache slot an instruction uses, if it has one.
///
/// A free function rather than a method on `Op` because nothing outside verification wants it. The
/// interpreter reads the operand it already matched on and does not ask this question.
fn cache_of(op: Op) -> (cache: Option<CacheIndex>)
    ensures
        cache == first_cache(op.operands()),
{
    proof {
        reveal_with_fuel(cache_from, 7);
    }
    match op {
        Op::LoadGlobal { cache, .. }
        | Op::LoadGlobalForTypeof { cache, .. }
        | Op::StoreGlobal { cache, .. }
        | Op::Add { cache, .. }
        | Op::Sub { cache, .. }
        | Op::Mul { cache, .. }
        | Op::Div { cache, .. }
        | Op::Rem { cache, .. }
        | Op::Pow { cache, .. }
        | Op::BitOr { cache, .. }
        | Op::BitXor { cache, .. }
        | Op::BitAnd { cache, .. }
        | Op::Shl { cache, .. }
        | Op::Shr { cache, .. }
        | Op::UnsignedShr { cache, .. }
        | Op::Equal { cache, .. }
        | Op::NotEqual { cache, .. }
        | Op::StrictEqual { cache, .. }
        | Op::StrictNotEqual { cache, .. }
        | Op::Less { cache, .. }
        | Op::LessEqual { cache, .. }
        | Op::Greater { cache, .. }
        | Op::GreaterEqual { cache, .. }
        | Op::In { cache, .. }
        | Op::InstanceOf { cache, .. }
        | Op::Neg { cache, .. }
        | Op::BitNot { cache, .. }
        | Op::ToNumber { cache, .. }
        | Op::Inc { cache, .. }
        | Op::Dec { cache, .. }
        | Op::GetProp { cache, .. }
        | Op::SetProp { cache, .. }
        | Op::GetIndex { cache, .. }
        | Op::SetIndex { cache, .. }
        | Op::Call { cache, .. }
        | Op::CallMethod { cache, .. }
        | Op::LoopBackEdge { profile: cache, .. } => Some(cache),
        _ => None,
    }
}

/// The largest register an instruction names, which is the one worth checking against the frame.
///
/// A call names a run of argument registers rather than one, so the last of that run is what has to
/// fit, and getting that wrong is how a frame ends up one slot short exactly when a function is
/// called with the maximum number of arguments.
fn highest_register(op: Op) -> (highest: Option<Register>)
    ensures
        highest is Some <==> highest_named(op) is Some,
        highest matches Some(register) ==> highest_named(op) == Some(register.0)
            && is_highest_register(op, register.0),
        highest is None ==> forall|r: u16| !#[trigger] op.names_register(r as int),
{
    let list = gather(registers_of(op).as_slice());
    let registers = gathered(&list);
    if registers.len() == 0 {
        return None;
    }
    let mut highest: Register = registers[0];
    let mut seen: usize = 1;
    while seen < registers.len()
        invariant
            1 <= seen <= registers@.len(),
            exists|i: int| 0 <= i < seen && #[trigger] registers@[i] == highest,
            forall|i: int| 0 <= i < seen ==> (#[trigger] registers@[i]).0 <= highest.0,
        decreases registers@.len() - seen,
    {
        if registers[seen].0 > highest.0 {
            highest = registers[seen];
        }
        seen = seen + 1;
    }
    proof {
        let i = choose|i: int| 0 <= i < seen && #[trigger] registers@[i] == highest;
        assert(op.names_register(registers@[i].0 as int));
        assert(is_highest_register(op, highest.0));
        let other = choose|other: u16| is_highest_register(op, other);
        assert(op.names_register(other as int));
        assert(op.names_register(highest.0 as int));
    }
    Some(highest)
}

/// The registers worth looking at in an instruction: its register operands, with a run of arguments
/// given by its last one.
fn registers_of(op: Op) -> (registers: Vec<Register>)
    ensures
        forall|i: int|
            0 <= i < registers@.len() ==> op.names_register(#[trigger] registers@[i].0 as int),
        forall|r: u16| #[trigger]
            op.names_register(r as int) ==> exists|i: int|
                0 <= i < registers@.len() && r <= (#[trigger] registers@[i]).0,
{
    proof {
        assert forall|k: int|
            0 <= k < op.operands().len() && op.operands()[k] is Register implies op.names_register(
            (#[trigger] op.operands()[k])->Register_0.0 as int,
        ) by {
            assert(op.operands().contains(op.operands()[k]));
        }
    }
    let registers = match op {
        Op::LoadConst { dst, .. }
        | Op::LoadInt { dst, .. }
        | Op::LoadUndefined { dst }
        | Op::LoadNull { dst }
        | Op::LoadBool { dst, .. }
        | Op::LoadThis { dst }
        | Op::LoadClosure { dst }
        | Op::LoadUninitialized { dst }
        | Op::LoadUpvalue { dst, .. }
        | Op::LoadGlobal { dst, .. }
        | Op::LoadGlobalForTypeof { dst, .. }
        | Op::NewClosure { dst, .. }
        | Op::NewObject { dst, .. } => vec![dst],
        Op::Move { dst, src }
        | Op::Neg { dst, src, .. }
        | Op::BitNot { dst, src, .. }
        | Op::ToNumber { dst, src, .. }
        | Op::Inc { dst, src, .. }
        | Op::Dec { dst, src, .. }
        | Op::Not { dst, src }
        | Op::TypeOf { dst, src } => vec![dst, src],
        Op::ThrowIfUninitialized { src, .. }
        | Op::StoreUpvalue { src, .. }
        | Op::StoreGlobal { src, .. }
        | Op::Return { src }
        | Op::Throw { src }
        | Op::JumpIfTrue { cond: src, .. }
        | Op::JumpIfFalse { cond: src, .. } => vec![src],
        Op::Add { dst, lhs, rhs, .. }
        | Op::Sub { dst, lhs, rhs, .. }
        | Op::Mul { dst, lhs, rhs, .. }
        | Op::Div { dst, lhs, rhs, .. }
        | Op::Rem { dst, lhs, rhs, .. }
        | Op::Pow { dst, lhs, rhs, .. }
        | Op::BitOr { dst, lhs, rhs, .. }
        | Op::BitXor { dst, lhs, rhs, .. }
        | Op::BitAnd { dst, lhs, rhs, .. }
        | Op::Shl { dst, lhs, rhs, .. }
        | Op::Shr { dst, lhs, rhs, .. }
        | Op::UnsignedShr { dst, lhs, rhs, .. }
        | Op::Equal { dst, lhs, rhs, .. }
        | Op::NotEqual { dst, lhs, rhs, .. }
        | Op::StrictEqual { dst, lhs, rhs, .. }
        | Op::StrictNotEqual { dst, lhs, rhs, .. }
        | Op::Less { dst, lhs, rhs, .. }
        | Op::LessEqual { dst, lhs, rhs, .. }
        | Op::Greater { dst, lhs, rhs, .. }
        | Op::GreaterEqual { dst, lhs, rhs, .. }
        | Op::In { dst, lhs, rhs, .. }
        | Op::InstanceOf { dst, lhs, rhs, .. } => vec![dst, lhs, rhs],
        Op::GetProp { dst, obj, .. } | Op::DeleteProp { dst, obj, .. } => vec![dst, obj],
        Op::SetProp { obj, value, .. } => vec![obj, value],
        Op::GetIndex { dst, obj, index, .. } | Op::DeleteIndex { dst, obj, index } => vec![
            dst,
            obj,
            index,
        ],
        Op::SetIndex { obj, index, value, .. } => vec![obj, index, value],
        Op::Call { dst, callee, args, argc, .. } => vec![dst, callee, last_argument(args, argc)],
        Op::CallMethod { dst, obj, args, argc, .. } => vec![dst, obj, last_argument(args, argc)],
        Op::ThrowConstAssignment
        | Op::NewContext { .. }
        | Op::Jump { .. }
        | Op::LoopBackEdge { .. } => Vec::new(),
    };
    proof {
        let o = op.operands();
        assert(o.len() <= 6);
        let shown = (o[0], o[1], o[2], o[3]);
    }
    registers
}

/// The last register in a run of `count` arguments starting at `first`.
///
/// A call with no arguments still names a start register, and that register is where the callee's
/// arguments would go, so it has to exist in the frame even when nothing is written to it.
fn last_argument(first: Register, count: u16) -> (last: Register)
    ensures
        last.0 == if count == 0 {
            first.0 as int
        } else if first.0 + count - 1 <= u16::MAX {
            first.0 + count - 1
        } else {
            u16::MAX as int
        },
{
    Register(first.0.saturating_add(count.saturating_sub(1)))
}

/// An instruction that names a register names a largest one.
proof fn lemma_some_register_is_highest(op: Op, r: u16)
    requires
        op.names_register(r as int),
    ensures
        exists|highest: u16| is_highest_register(op, highest),
    decreases u16::MAX - r,
{
    if !is_highest_register(op, r) {
        let above = choose|above: u16| #[trigger] op.names_register(above as int) && above > r;
        lemma_some_register_is_highest(op, above);
    }
}

proof fn lemma_code_fault(blueprint: FunctionBlueprint, from: int)
    requires
        0 <= from,
    ensures
        blueprint.code_fault(from) is None <==> forall|at: int|
            from <= at < blueprint.code@.len() ==> #[trigger] blueprint.instruction_fault(
                at,
            ) is None,
    decreases blueprint.code@.len() - from,
{
    if from < blueprint.code@.len() {
        lemma_code_fault(blueprint, from + 1);
        assert(blueprint.instruction_fault(from) is None || blueprint.code_fault(from) is Some);
    }
}

proof fn lemma_table_fault(blueprint: FunctionBlueprint, from: int)
    requires
        0 <= from,
    ensures
        blueprint.table_fault(from) is None <==> forall|at: int|
            from <= at < blueprint.handlers@.len() ==> #[trigger] blueprint.handler_fault(
                at,
            ) is None,
    decreases blueprint.handlers@.len() - from,
{
    if from < blueprint.handlers@.len() {
        lemma_table_fault(blueprint, from + 1);
        assert(blueprint.handler_fault(from) is None || blueprint.table_fault(from) is Some);
    }
}

proof fn lemma_nested_fault(blueprint: FunctionBlueprint, from: int)
    requires
        0 <= from,
    ensures
        blueprint.nested_fault(from) is None <==> forall|i: int|
            from <= i < blueprint.blueprints@.len() ==> (
            #[trigger] blueprint.blueprints@[i]).holds_together(),
    decreases blueprint, blueprint.blueprints@.len() - from,
{
    if from < blueprint.blueprints@.len() {
        lemma_no_fault_is_holding_together(blueprint.blueprints@[from]);
        lemma_nested_fault(blueprint, from + 1);
    }
}

/// Nothing is found wrong exactly when every index points at something that exists, control cannot
/// run off the end, and the nested functions hold together too.
proof fn lemma_no_fault_is_holding_together(blueprint: FunctionBlueprint)
    ensures
        blueprint.fault() is None <==> blueprint.holds_together(),
    decreases blueprint, blueprint.blueprints@.len() + 1,
{
    lemma_code_fault(blueprint, 0);
    lemma_table_fault(blueprint, 0);
    lemma_nested_fault(blueprint, 0);
    if blueprint.fault() is None {
        assert forall|at: int| 0 <= at < blueprint.code@.len() implies {
            let op = #[trigger] blueprint.code@[at];
            &&& first_target(op.operands()) matches Some(target) ==> target.0
                < blueprint.code@.len()
            &&& first_constant(op.operands()) matches Some(index) ==> index.0
                < blueprint.constants@.len()
            &&& op matches Op::NewClosure { blueprint: inner, .. } ==> inner.0
                < blueprint.blueprints@.len()
            &&& first_cache(op.operands()) matches Some(cache) ==> cache.0 < blueprint.cache_slots
            &&& forall|r: u16| #[trigger] op.names_register(r as int) ==> r < blueprint.frame_size
        } by {
            assert(blueprint.instruction_fault(at) is None);
            let op = blueprint.code@[at];
            assert forall|r: u16| #[trigger] op.names_register(r as int) implies r
                < blueprint.frame_size by {
                lemma_some_register_is_highest(op, r);
            }
        }
        assert forall|at: int| 0 <= at < blueprint.handlers@.len() implies {
            let handler = #[trigger] blueprint.handlers@[at];
            &&& handler.start.0 < handler.end.0 <= blueprint.code@.len()
            &&& handler.target.0 < blueprint.code@.len()
            &&& handler.register.0 < blueprint.frame_size
        } by {
            assert(blueprint.handler_fault(at) is None);
        }
    }
    if blueprint.holds_together() {
        assert forall|at: int| 0 <= at < blueprint.code@.len() implies (
        #[trigger] blueprint.instruction_fault(at)) is None by {
            let op = blueprint.code@[at];
            if let Some(register) = highest_named(op) {
                assert(is_highest_register(op, register));
            }
        }
        assert forall|at: int| 0 <= at < blueprint.handlers@.len() implies (
        #[trigger] blueprint.handler_fault(at)) is None by {
            let handler = blueprint.handlers@[at];
        }
    }
}

/// A function that verifies never sends control to an instruction that is not there: every jump in
/// it and every handler it has lands inside its code, and so does the instruction after any that
/// does not end a run.
pub proof fn law_control_stays_inside_verified_code(blueprint: FunctionBlueprint, at: int)
    requires
        blueprint.fault() is None,
        0 <= at < blueprint.code@.len(),
    ensures
        first_target(blueprint.code@[at].operands()) matches Some(target) ==> target.0
            < blueprint.code@.len(),
        !blueprint.code@[at].ends_a_run() ==> at + 1 < blueprint.code@.len(),
        blueprint.first_handler(CodeOffset(at as u32), 0) matches Some(handler) ==> handler.target.0
            < blueprint.code@.len() && handler.register.0 < blueprint.frame_size,
{
    lemma_no_fault_is_holding_together(blueprint);
    lemma_first_handler_is_an_entry(blueprint, CodeOffset(at as u32), 0);
}

/// The functions inside one that verifies verify too.
pub proof fn law_nested_functions_of_verified_code_verify(blueprint: FunctionBlueprint, inner: int)
    requires
        blueprint.fault() is None,
        0 <= inner < blueprint.blueprints@.len(),
    ensures
        blueprint.blueprints@[inner].fault() is None,
{
    lemma_no_fault_is_holding_together(blueprint);
    lemma_no_fault_is_holding_together(blueprint.blueprints@[inner]);
}

proof fn lemma_first_handler_is_an_entry(blueprint: FunctionBlueprint, at: CodeOffset, from: int)
    requires
        0 <= from,
    ensures
        blueprint.first_handler(at, from) matches Some(handler) ==> handler.protects(at) && exists|
            entry: int,
        |
            from <= entry < blueprint.handlers@.len() && #[trigger] blueprint.handlers@[entry]
                == handler && forall|earlier: int|
                from <= earlier < entry ==> !(#[trigger] blueprint.handlers@[earlier]).protects(at),
        blueprint.first_handler(at, from) is None ==> forall|entry: int|
            from <= entry < blueprint.handlers@.len() ==> !(
            #[trigger] blueprint.handlers@[entry]).protects(at),
    decreases blueprint.handlers@.len() - from,
{
    if from < blueprint.handlers@.len() && !blueprint.handlers@[from].protects(at) {
        lemma_first_handler_is_an_entry(blueprint, at, from + 1);
        if let Some(handler) = blueprint.first_handler(at, from + 1) {
            let entry = choose|entry: int|
                from + 1 <= entry < blueprint.handlers@.len()
                    && #[trigger] blueprint.handlers@[entry] == handler && forall|earlier: int|
                    from + 1 <= earlier < entry ==> !(
                    #[trigger] blueprint.handlers@[earlier]).protects(at);
            assert forall|earlier: int| from <= earlier < entry implies !(
            #[trigger] blueprint.handlers@[earlier]).protects(at) by {}
            assert(blueprint.handlers@[entry] == handler);
        }
    } else if from < blueprint.handlers@.len() {
        assert(blueprint.handlers@[from] == blueprint.first_handler(at, from)->0);
    }
}

/// The handler a throw finds is the first entry of the table that contains it, and a throw that no
/// entry contains finds none.
pub proof fn law_the_first_entry_that_contains_a_throw_catches_it(
    blueprint: FunctionBlueprint,
    at: CodeOffset,
)
    ensures
        blueprint.first_handler(at, 0) matches Some(handler) ==> handler.protects(at) && exists|
            entry: int,
        |
            0 <= entry < blueprint.handlers@.len() && #[trigger] blueprint.handlers@[entry]
                == handler && forall|earlier: int|
                0 <= earlier < entry ==> !(#[trigger] blueprint.handlers@[earlier]).protects(at),
        blueprint.first_handler(at, 0) is None ==> forall|entry: int|
            0 <= entry < blueprint.handlers@.len() ==> !(
            #[trigger] blueprint.handlers@[entry]).protects(at),
{
    lemma_first_handler_is_an_entry(blueprint, at, 0);
}

/// What is wrong with an instruction, in the order it is looked for: a jump past the code, a constant
/// the pool has not, a nested function that is not there, a cache that was not allocated, and last
/// the largest register past the frame. Nothing is wrong with one that has none of these.
pub proof fn law_what_is_wrong_with_an_instruction(
    blueprint: FunctionBlueprint,
    at: int,
    register: u16,
)
    requires
        0 <= at < blueprint.code@.len(),
    ensures
        ({
            let op = blueprint.code@[at];
            let len = blueprint.code@.len();
            let jumps_out = first_target(op.operands()) matches Some(target) && target.0 >= len;
            let reads_out = first_constant(op.operands()) matches Some(index) && index.0
                >= blueprint.constants@.len();
            let closes_out = op matches Op::NewClosure { blueprint: inner, .. } && inner.0
                >= blueprint.blueprints@.len();
            let caches_out = first_cache(op.operands()) matches Some(cache) && cache.0
                >= blueprint.cache_slots;
            let first_four = jumps_out || reads_out || closes_out || caches_out;
            let fault = blueprint.instruction_fault(at);
            &&& jumps_out ==> fault == Some(
                BlueprintError::JumpOutOfRange {
                    at: at as usize,
                    target: (first_target(op.operands())->0).0,
                    len: len as usize,
                },
            )
            &&& reads_out && !jumps_out ==> fault == Some(
                BlueprintError::ConstantOutOfRange {
                    at: at as usize,
                    index: (first_constant(op.operands())->0).0,
                    len: blueprint.constants@.len() as usize,
                },
            )
            &&& closes_out && !jumps_out && !reads_out ==> fault == Some(
                BlueprintError::BlueprintOutOfRange {
                    at: at as usize,
                    index: op->NewClosure_blueprint.0,
                    len: blueprint.blueprints@.len() as usize,
                },
            )
            &&& caches_out && !jumps_out && !reads_out && !closes_out ==> fault == Some(
                BlueprintError::CacheOutOfRange {
                    at: at as usize,
                    index: (first_cache(op.operands())->0).0,
                    slots: blueprint.cache_slots,
                },
            )
            &&& !first_four && register >= blueprint.frame_size && op.names_register(register as int)
                && (forall|other: u16| #[trigger]
                op.names_register(other as int) ==> other <= register) ==> fault == Some(
                BlueprintError::RegisterOutOfRange {
                    at: at as usize,
                    register,
                    frame_size: blueprint.frame_size,
                },
            )
            &&& !first_four && (forall|other: u16| #[trigger]
                op.names_register(other as int) ==> other < blueprint.frame_size) ==> fault is None
        }),
{
    let op = blueprint.code@[at];
    if op.names_register(register as int) && (forall|other: u16| #[trigger]
        op.names_register(other as int) ==> other <= register) {
        assert(is_highest_register(op, register));
        let chosen = choose|highest: u16| is_highest_register(op, highest);
        assert(is_highest_register(op, chosen));
    }
    if exists|highest: u16| is_highest_register(op, highest) {
        let chosen = choose|highest: u16| is_highest_register(op, highest);
        assert(is_highest_register(op, chosen));
        assert(op.names_register(chosen as int));
    }
}

/// A handler protects the instructions from its start up to its end, its start among them and its end
/// not. It is wrong when that is no range of the code or it lands outside the code, and otherwise when
/// it catches into a register past the frame.
pub proof fn law_what_is_wrong_with_a_handler(
    blueprint: FunctionBlueprint,
    at: int,
    instruction: CodeOffset,
)
    requires
        0 <= at < blueprint.handlers@.len(),
    ensures
        ({
            let handler = blueprint.handlers@[at];
            let len = blueprint.code@.len();
            let ranged = handler.start.0 < handler.end.0 && handler.end.0 <= len
                && handler.target.0 < len;
            &&& handler.protects(instruction) <==> handler.start.0 <= instruction.0
                && instruction.0 < handler.end.0
            &&& !ranged ==> blueprint.handler_fault(at) == Some(
                BlueprintError::HandlerOutOfRange {
                    at: at as usize,
                    start: handler.start.0,
                    end: handler.end.0,
                    target: handler.target.0,
                    len: len as usize,
                },
            )
            &&& ranged && handler.register.0 >= blueprint.frame_size ==> blueprint.handler_fault(at)
                == Some(
                BlueprintError::HandlerRegisterOutOfRange {
                    at: at as usize,
                    register: handler.register.0,
                    frame_size: blueprint.frame_size,
                },
            )
            &&& ranged && handler.register.0 < blueprint.frame_size ==> blueprint.handler_fault(
                at,
            ) is None
        }),
{
}

/// The verifier reports the first fault it comes to: the first instruction that is wrong, or else the
/// first handler, or else that the code does not end, or else the first nested function that has one.
pub proof fn law_the_first_fault_is_the_one_reported(blueprint: FunctionBlueprint, at: int)
    ensures
        0 <= at < blueprint.code@.len() && blueprint.instruction_fault(at) is Some && (forall|k: int|
            0 <= k < at ==> #[trigger] blueprint.instruction_fault(k) is None) ==> blueprint.fault()
            == blueprint.instruction_fault(at),
        (forall|k: int|
            0 <= k < blueprint.code@.len() ==> #[trigger] blueprint.instruction_fault(k) is None)
            && 0 <= at < blueprint.handlers@.len() && blueprint.handler_fault(at) is Some && (forall|
            k: int,
        |
            0 <= k < at ==> #[trigger] blueprint.handler_fault(k) is None) ==> blueprint.fault()
            == blueprint.handler_fault(at),
        (forall|k: int|
            0 <= k < blueprint.code@.len() ==> #[trigger] blueprint.instruction_fault(k) is None)
            && (forall|k: int|
            0 <= k < blueprint.handlers@.len() ==> #[trigger] blueprint.handler_fault(k) is None)
            && blueprint.ending_fault() is Some ==> blueprint.fault() == blueprint.ending_fault(),
        (forall|k: int|
            0 <= k < blueprint.code@.len() ==> #[trigger] blueprint.instruction_fault(k) is None)
            && (forall|k: int|
            0 <= k < blueprint.handlers@.len() ==> #[trigger] blueprint.handler_fault(k) is None)
            && blueprint.ending_fault() is None && 0 <= at < blueprint.blueprints@.len()
            && blueprint.blueprints@[at].fault() is Some && (forall|k: int|
            0 <= k < at ==> (#[trigger] blueprint.blueprints@[k]).fault() is None)
            ==> blueprint.fault() == blueprint.blueprints@[at].fault(),
{
    lemma_the_first_code_fault(blueprint, at, 0);
    lemma_the_first_table_fault(blueprint, at, 0);
    lemma_the_first_nested_fault(blueprint, at, 0);
}

proof fn lemma_the_first_code_fault(blueprint: FunctionBlueprint, at: int, from: int)
    requires
        0 <= from,
    ensures
        from <= at < blueprint.code@.len() && blueprint.instruction_fault(at) is Some && (forall|
            k: int,
        |
            from <= k < at ==> #[trigger] blueprint.instruction_fault(k) is None)
            ==> blueprint.code_fault(from) == blueprint.instruction_fault(at),
        (forall|k: int|
            from <= k < blueprint.code@.len() ==> #[trigger] blueprint.instruction_fault(k) is None)
            ==> blueprint.code_fault(from) is None,
    decreases blueprint.code@.len() - from,
{
    if from < blueprint.code@.len() {
        lemma_the_first_code_fault(blueprint, at, from + 1);
        assert(blueprint.instruction_fault(from) is None || blueprint.instruction_fault(from) is Some);
    }
}

proof fn lemma_the_first_table_fault(blueprint: FunctionBlueprint, at: int, from: int)
    requires
        0 <= from,
    ensures
        from <= at < blueprint.handlers@.len() && blueprint.handler_fault(at) is Some && (forall|
            k: int,
        |
            from <= k < at ==> #[trigger] blueprint.handler_fault(k) is None)
            ==> blueprint.table_fault(from) == blueprint.handler_fault(at),
        (forall|k: int|
            from <= k < blueprint.handlers@.len() ==> #[trigger] blueprint.handler_fault(k) is None)
            ==> blueprint.table_fault(from) is None,
    decreases blueprint.handlers@.len() - from,
{
    if from < blueprint.handlers@.len() {
        lemma_the_first_table_fault(blueprint, at, from + 1);
        assert(blueprint.handler_fault(from) is None || blueprint.handler_fault(from) is Some);
    }
}

proof fn lemma_the_first_nested_fault(blueprint: FunctionBlueprint, at: int, from: int)
    requires
        0 <= from,
    ensures
        from <= at < blueprint.blueprints@.len() && blueprint.blueprints@[at].fault() is Some && (
        forall|k: int| from <= k < at ==> (#[trigger] blueprint.blueprints@[k]).fault() is None)
            ==> blueprint.nested_fault(from) == blueprint.blueprints@[at].fault(),
    decreases blueprint.blueprints@.len() - from,
{
    if from < blueprint.blueprints@.len() {
        lemma_the_first_nested_fault(blueprint, at, from + 1);
        assert(blueprint.blueprints@[from].fault() is None
            || blueprint.blueprints@[from].fault() is Some);
    }
}

/// What a listing says: a heading with the name and the sizes, a line for every instruction with its
/// number, the byte it came from and the constant it reads, and a line for every handler.
pub proof fn law_what_a_listing_says(blueprint: FunctionBlueprint, indent: Seq<char>, at: int)
    requires
        0 <= at < blueprint.code@.len(),
    ensures
        blueprint.heading(indent) == indent + "function "@ + (if blueprint.name@.len() == 0 {
            "<anonymous>"@
        } else {
            blueprint.name@
        }) + ": "@ + decimal(blueprint.arity as nat) + " params, "@ + decimal(
            blueprint.frame_size as nat,
        ) + " registers, "@ + decimal(blueprint.cell_slots as nat) + " cells, "@ + decimal(
            blueprint.cache_slots as nat,
        ) + " caches\n"@,
        blueprint.instruction_line(indent, at) == indent + "  "@ + right_aligned(
            decimal(at as nat),
            4,
        ) + "  "@ + right_aligned(
            match in_force(blueprint.positions@, at) {
                Some(offset) => decimal(offset as nat),
                None => "-"@,
            },
            6,
        ) + "  "@ + blueprint.code@[at].text() + (match first_constant(
            blueprint.code@[at].operands(),
        ) {
            Some(index) => if index.0 < blueprint.constants@.len() {
                "  ; "@ + blueprint.constants@[index.0 as int].text()
            } else {
                Seq::<char>::empty()
            },
            None => Seq::<char>::empty(),
        }) + "\n"@,
        blueprint.code_lines(indent, at + 1) == blueprint.code_lines(indent, at)
            + blueprint.instruction_line(indent, at),
        forall|handler: Handler| #[trigger]
            handler.text() == "["@ + decimal(handler.start.0 as nat) + ", "@ + decimal(
                handler.end.0 as nat,
            ) + ") -> "@ + decimal(handler.target.0 as nat) + " into r"@ + decimal(
                handler.register.0 as nat,
            ),
{
}

/// What each refusal says.
pub proof fn law_what_a_refusal_says(a: usize, b: u32, c: usize, d: u16, e: u16, f: u32, g: u32)
    ensures
        (BlueprintError::JumpOutOfRange { at: a, target: b, len: c }).text() == "instruction "@
            + decimal(a as nat) + " jumps to "@ + decimal(b as nat) + ", which is past the end of "@
            + decimal(c as nat) + " instructions"@,
        (BlueprintError::RegisterOutOfRange { at: a, register: d, frame_size: e }).text()
            == "instruction "@ + decimal(a as nat) + " uses r"@ + decimal(d as nat)
            + ", but the frame holds "@ + decimal(e as nat) + " registers"@,
        (BlueprintError::ConstantOutOfRange { at: a, index: b, len: c }).text() == "instruction "@
            + decimal(a as nat) + " reads k"@ + decimal(b as nat) + ", but the pool holds "@
            + decimal(c as nat) + " constants"@,
        (BlueprintError::BlueprintOutOfRange { at: a, index: b, len: c }).text() == "instruction "@
            + decimal(a as nat) + " closes over fn"@ + decimal(b as nat) + ", but there are "@
            + decimal(c as nat) + " nested blueprints"@,
        (BlueprintError::CacheOutOfRange { at: a, index: b, slots: f }).text() == "instruction "@
            + decimal(a as nat) + " uses ic"@ + decimal(b as nat) + ", but "@ + decimal(f as nat)
            + " cache slots were allocated"@,
        BlueprintError::FallsOffTheEnd.text() == "the code does not end in a return or a jump"@,
        (BlueprintError::HandlerOutOfRange { at: a, start: b, end: f, target: g, len: c }).text()
            == "handler "@ + decimal(a as nat) + " protects ["@ + decimal(b as nat) + ", "@
            + decimal(f as nat) + ") and lands at "@ + decimal(g as nat) + ", in "@ + decimal(
            c as nat,
        ) + " instructions"@,
        (BlueprintError::HandlerRegisterOutOfRange { at: a, register: d, frame_size: e }).text()
            == "handler "@ + decimal(a as nat) + " catches into r"@ + decimal(d as nat)
            + ", but the frame holds "@ + decimal(e as nat) + " registers"@,
{
}

/// A listing is the heading, the instructions, the handlers if there are any, and the functions inside,
/// each behind a blank line and its number and two spaces further in.
pub proof fn law_how_a_listing_is_put_together(
    blueprint: FunctionBlueprint,
    indent: Seq<char>,
    count: int,
)
    ensures
        blueprint.listing(indent) == blueprint.heading(indent) + blueprint.code_lines(
            indent,
            blueprint.code@.len() as int,
        ) + blueprint.handler_section(indent) + blueprint.nested_listings(
            indent,
            blueprint.blueprints@.len() as int,
        ),
        blueprint.code_lines(indent, 0) == Seq::<char>::empty(),
        blueprint.handlers@.len() == 0 ==> blueprint.handler_section(indent) == Seq::<char>::empty(),
        blueprint.handlers@.len() > 0 ==> blueprint.handler_section(indent) == indent
            + "  handlers:\n"@ + blueprint.handler_lines(
            indent,
            blueprint.handlers@.len() as int,
        ),
        0 <= count < blueprint.handlers@.len() ==> blueprint.handler_lines(indent, count + 1)
            == blueprint.handler_lines(indent, count) + (indent + "    "@
            + blueprint.handlers@[count].text() + "\n"@),
        0 <= count < blueprint.blueprints@.len() ==> blueprint.nested_listings(indent, count + 1)
            == blueprint.nested_listings(indent, count) + ("\n"@ + indent + "  fn"@ + decimal(
            count as nat,
        ) + ":\n"@ + blueprint.blueprints@[count].listing(indent + "  "@)),
        blueprint.nested_listings(indent, 0) == Seq::<char>::empty(),
        blueprint.handler_lines(indent, 0) == Seq::<char>::empty(),
{
}

} // verus!
