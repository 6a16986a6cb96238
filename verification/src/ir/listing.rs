//! An instruction can be read back from the line a listing has for it.
//!
//! The mnemonic names the instruction and every operand is printed, so no two instructions print
//! alike.

use vstd::prelude::*;

use crate::ir::op::{listed, Op, Operand};
use crate::text::{
    decimal, law_decimal_is_one_to_one, law_signed_is_one_to_one, lemma_decimal_reads_back,
    lemma_ends_agree,
};

verus! {

/// Which instruction it is, operands aside.
pub open spec fn opcode(op: Op) -> int {
    match op {
        Op::LoadConst { .. } => 0,
        Op::LoadInt { .. } => 1,
        Op::LoadUndefined { .. } => 2,
        Op::LoadNull { .. } => 3,
        Op::LoadBool { .. } => 4,
        Op::LoadThis { .. } => 5,
        Op::LoadClosure { .. } => 6,
        Op::Move { .. } => 7,
        Op::LoadUninitialized { .. } => 8,
        Op::ThrowIfUninitialized { .. } => 9,
        Op::ThrowConstAssignment => 10,
        Op::LoadUpvalue { .. } => 11,
        Op::StoreUpvalue { .. } => 12,
        Op::NewContext { .. } => 13,
        Op::LoadGlobal { .. } => 14,
        Op::LoadGlobalForTypeof { .. } => 15,
        Op::StoreGlobal { .. } => 16,
        Op::Add { .. } => 17,
        Op::Sub { .. } => 18,
        Op::Mul { .. } => 19,
        Op::Div { .. } => 20,
        Op::Rem { .. } => 21,
        Op::Pow { .. } => 22,
        Op::BitOr { .. } => 23,
        Op::BitXor { .. } => 24,
        Op::BitAnd { .. } => 25,
        Op::Shl { .. } => 26,
        Op::Shr { .. } => 27,
        Op::UnsignedShr { .. } => 28,
        Op::Equal { .. } => 29,
        Op::NotEqual { .. } => 30,
        Op::StrictEqual { .. } => 31,
        Op::StrictNotEqual { .. } => 32,
        Op::Less { .. } => 33,
        Op::LessEqual { .. } => 34,
        Op::Greater { .. } => 35,
        Op::GreaterEqual { .. } => 36,
        Op::In { .. } => 37,
        Op::InstanceOf { .. } => 38,
        Op::Neg { .. } => 39,
        Op::BitNot { .. } => 40,
        Op::ToNumber { .. } => 41,
        Op::Inc { .. } => 42,
        Op::Dec { .. } => 43,
        Op::Not { .. } => 44,
        Op::TypeOf { .. } => 45,
        Op::GetProp { .. } => 46,
        Op::SetProp { .. } => 47,
        Op::GetIndex { .. } => 48,
        Op::SetIndex { .. } => 49,
        Op::DeleteProp { .. } => 50,
        Op::DeleteIndex { .. } => 51,
        Op::Call { .. } => 52,
        Op::CallMethod { .. } => 53,
        Op::Return { .. } => 54,
        Op::Throw { .. } => 55,
        Op::NewClosure { .. } => 56,
        Op::NewObject { .. } => 57,
        Op::Jump { .. } => 58,
        Op::JumpIfTrue { .. } => 59,
        Op::JumpIfFalse { .. } => 60,
        Op::LoopBackEdge { .. } => 61,
    }
}

/// Whether no character of a text as short as a mnemonic is a space, one character at a time.
spec fn spelled(text: Seq<char>) -> bool {
    &&& text.len() <= 22
    &&& text.len() > 0 ==> text[0] != ' '
    &&& text.len() > 1 ==> text[1] != ' '
    &&& text.len() > 2 ==> text[2] != ' '
    &&& text.len() > 3 ==> text[3] != ' '
    &&& text.len() > 4 ==> text[4] != ' '
    &&& text.len() > 5 ==> text[5] != ' '
    &&& text.len() > 6 ==> text[6] != ' '
    &&& text.len() > 7 ==> text[7] != ' '
    &&& text.len() > 8 ==> text[8] != ' '
    &&& text.len() > 9 ==> text[9] != ' '
    &&& text.len() > 10 ==> text[10] != ' '
    &&& text.len() > 11 ==> text[11] != ' '
    &&& text.len() > 12 ==> text[12] != ' '
    &&& text.len() > 13 ==> text[13] != ' '
    &&& text.len() > 14 ==> text[14] != ' '
    &&& text.len() > 15 ==> text[15] != ' '
    &&& text.len() > 16 ==> text[16] != ' '
    &&& text.len() > 17 ==> text[17] != ' '
    &&& text.len() > 18 ==> text[18] != ' '
    &&& text.len() > 19 ==> text[19] != ' '
    &&& text.len() > 20 ==> text[20] != ' '
    &&& text.len() > 21 ==> text[21] != ' '
}

proof fn lemma_no_character_is_a_space(text: Seq<char>)
    requires
        spelled(text),
    ensures
        spelled(text),
        forall|i: int| 0 <= i < text.len() ==> #[trigger] text[i] != ' ',
{
}

/// The mnemonic names the instruction, and holds no space.
proof fn lemma_a_mnemonic_names_the_instruction(left: Op, right: Op)
    ensures
        left.mnemonic() == right.mnemonic() ==> opcode(left) == opcode(right),
        forall|i: int| 0 <= i < left.mnemonic().len() ==> #[trigger] left.mnemonic()[i] != ' ',
{
    reveal_strlit("load_const");
    lemma_no_character_is_a_space("load_const"@);
    reveal_strlit("load_int");
    lemma_no_character_is_a_space("load_int"@);
    reveal_strlit("load_undefined");
    lemma_no_character_is_a_space("load_undefined"@);
    reveal_strlit("load_null");
    lemma_no_character_is_a_space("load_null"@);
    reveal_strlit("load_bool");
    lemma_no_character_is_a_space("load_bool"@);
    reveal_strlit("load_this");
    lemma_no_character_is_a_space("load_this"@);
    reveal_strlit("load_closure");
    lemma_no_character_is_a_space("load_closure"@);
    reveal_strlit("move");
    lemma_no_character_is_a_space("move"@);
    reveal_strlit("load_uninitialized");
    lemma_no_character_is_a_space("load_uninitialized"@);
    reveal_strlit("throw_if_uninitialized");
    lemma_no_character_is_a_space("throw_if_uninitialized"@);
    reveal_strlit("throw_const_assignment");
    lemma_no_character_is_a_space("throw_const_assignment"@);
    reveal_strlit("load_upvalue");
    lemma_no_character_is_a_space("load_upvalue"@);
    reveal_strlit("store_upvalue");
    lemma_no_character_is_a_space("store_upvalue"@);
    reveal_strlit("new_context");
    lemma_no_character_is_a_space("new_context"@);
    reveal_strlit("load_global");
    lemma_no_character_is_a_space("load_global"@);
    reveal_strlit("load_global_for_typeof");
    lemma_no_character_is_a_space("load_global_for_typeof"@);
    reveal_strlit("store_global");
    lemma_no_character_is_a_space("store_global"@);
    reveal_strlit("add");
    lemma_no_character_is_a_space("add"@);
    reveal_strlit("sub");
    lemma_no_character_is_a_space("sub"@);
    reveal_strlit("mul");
    lemma_no_character_is_a_space("mul"@);
    reveal_strlit("div");
    lemma_no_character_is_a_space("div"@);
    reveal_strlit("rem");
    lemma_no_character_is_a_space("rem"@);
    reveal_strlit("pow");
    lemma_no_character_is_a_space("pow"@);
    reveal_strlit("bit_or");
    lemma_no_character_is_a_space("bit_or"@);
    reveal_strlit("bit_xor");
    lemma_no_character_is_a_space("bit_xor"@);
    reveal_strlit("bit_and");
    lemma_no_character_is_a_space("bit_and"@);
    reveal_strlit("shl");
    lemma_no_character_is_a_space("shl"@);
    reveal_strlit("shr");
    lemma_no_character_is_a_space("shr"@);
    reveal_strlit("unsigned_shr");
    lemma_no_character_is_a_space("unsigned_shr"@);
    reveal_strlit("equal");
    lemma_no_character_is_a_space("equal"@);
    reveal_strlit("not_equal");
    lemma_no_character_is_a_space("not_equal"@);
    reveal_strlit("strict_equal");
    lemma_no_character_is_a_space("strict_equal"@);
    reveal_strlit("strict_not_equal");
    lemma_no_character_is_a_space("strict_not_equal"@);
    reveal_strlit("less");
    lemma_no_character_is_a_space("less"@);
    reveal_strlit("less_equal");
    lemma_no_character_is_a_space("less_equal"@);
    reveal_strlit("greater");
    lemma_no_character_is_a_space("greater"@);
    reveal_strlit("greater_equal");
    lemma_no_character_is_a_space("greater_equal"@);
    reveal_strlit("in");
    lemma_no_character_is_a_space("in"@);
    reveal_strlit("instance_of");
    lemma_no_character_is_a_space("instance_of"@);
    reveal_strlit("neg");
    lemma_no_character_is_a_space("neg"@);
    reveal_strlit("bit_not");
    lemma_no_character_is_a_space("bit_not"@);
    reveal_strlit("to_number");
    lemma_no_character_is_a_space("to_number"@);
    reveal_strlit("inc");
    lemma_no_character_is_a_space("inc"@);
    reveal_strlit("dec");
    lemma_no_character_is_a_space("dec"@);
    reveal_strlit("not");
    lemma_no_character_is_a_space("not"@);
    reveal_strlit("type_of");
    lemma_no_character_is_a_space("type_of"@);
    reveal_strlit("get_prop");
    lemma_no_character_is_a_space("get_prop"@);
    reveal_strlit("set_prop");
    lemma_no_character_is_a_space("set_prop"@);
    reveal_strlit("get_index");
    lemma_no_character_is_a_space("get_index"@);
    reveal_strlit("set_index");
    lemma_no_character_is_a_space("set_index"@);
    reveal_strlit("delete_prop");
    lemma_no_character_is_a_space("delete_prop"@);
    reveal_strlit("delete_index");
    lemma_no_character_is_a_space("delete_index"@);
    reveal_strlit("call");
    lemma_no_character_is_a_space("call"@);
    reveal_strlit("call_method");
    lemma_no_character_is_a_space("call_method"@);
    reveal_strlit("return");
    lemma_no_character_is_a_space("return"@);
    reveal_strlit("throw");
    lemma_no_character_is_a_space("throw"@);
    reveal_strlit("new_closure");
    lemma_no_character_is_a_space("new_closure"@);
    reveal_strlit("new_object");
    lemma_no_character_is_a_space("new_object"@);
    reveal_strlit("jump");
    lemma_no_character_is_a_space("jump"@);
    reveal_strlit("jump_if_true");
    lemma_no_character_is_a_space("jump_if_true"@);
    reveal_strlit("jump_if_false");
    lemma_no_character_is_a_space("jump_if_false"@);
    reveal_strlit("loop_back_edge");
    lemma_no_character_is_a_space("loop_back_edge"@);
}

/// Which kind of operand it is.
spec fn sort(operand: Operand) -> int {
    match operand {
        Operand::Register(_) => 0,
        Operand::Constant(_) => 1,
        Operand::Cache(_) => 2,
        Operand::Target(_) => 3,
        Operand::Function(_) => 4,
        Operand::Count(_) => 5,
        Operand::Integer(_) => 6,
        Operand::Flag(_) => 7,
    }
}

/// The text of an operand holds no space.
proof fn lemma_an_operand_holds_no_space(operand: Operand)
    ensures
        forall|i: int| 0 <= i < operand.text().len() ==> #[trigger] operand.text()[i] != ' ',
{
    reveal_strlit("r");
    reveal_strlit("k");
    reveal_strlit("ic");
    reveal_strlit("@");
    reveal_strlit("fn");
    reveal_strlit("true");
    reveal_strlit("false");
    lemma_no_character_is_a_space("r"@);
    lemma_no_character_is_a_space("k"@);
    lemma_no_character_is_a_space("ic"@);
    lemma_no_character_is_a_space("@"@);
    lemma_no_character_is_a_space("fn"@);
    lemma_no_character_is_a_space("true"@);
    lemma_no_character_is_a_space("false"@);
    let number: nat = match operand {
        Operand::Register(register) => register.0 as nat,
        Operand::Constant(index) => index.0 as nat,
        Operand::Cache(cache) => cache.0 as nat,
        Operand::Target(target) => target.0 as nat,
        Operand::Function(function) => function.0 as nat,
        Operand::Count(count) => count as nat,
        Operand::Integer(value) => if value < 0 {
            (-value) as nat
        } else {
            value as nat
        },
        Operand::Flag(_) => 0,
    };
    lemma_decimal_reads_back(number);
    let digits = decimal(number);
    let text = operand.text();
    assert forall|i: int| 0 <= i < text.len() implies #[trigger] text[i] != ' ' by {
        let front = text.len() - digits.len();
        if !(operand is Flag) && i >= front {
            assert(text[i] == digits[i - front]);
        }
    }
}

/// Operands of one kind with the same text are the same.
proof fn lemma_an_operand_is_its_text(left: Operand, right: Operand)
    requires
        sort(left) == sort(right),
        left.text() == right.text(),
    ensures
        left == right,
{
    match (left, right) {
        (Operand::Register(a), Operand::Register(b)) => {
            lemma_ends_agree("r"@, decimal(a.0 as nat), decimal(b.0 as nat));
            law_decimal_is_one_to_one(a.0 as nat, b.0 as nat);
        },
        (Operand::Constant(a), Operand::Constant(b)) => {
            lemma_ends_agree("k"@, decimal(a.0 as nat), decimal(b.0 as nat));
            law_decimal_is_one_to_one(a.0 as nat, b.0 as nat);
        },
        (Operand::Cache(a), Operand::Cache(b)) => {
            lemma_ends_agree("ic"@, decimal(a.0 as nat), decimal(b.0 as nat));
            law_decimal_is_one_to_one(a.0 as nat, b.0 as nat);
        },
        (Operand::Target(a), Operand::Target(b)) => {
            lemma_ends_agree("@"@, decimal(a.0 as nat), decimal(b.0 as nat));
            law_decimal_is_one_to_one(a.0 as nat, b.0 as nat);
        },
        (Operand::Function(a), Operand::Function(b)) => {
            lemma_ends_agree("fn"@, decimal(a.0 as nat), decimal(b.0 as nat));
            law_decimal_is_one_to_one(a.0 as nat, b.0 as nat);
        },
        (Operand::Count(a), Operand::Count(b)) => {
            law_decimal_is_one_to_one(a as nat, b as nat);
        },
        (Operand::Integer(a), Operand::Integer(b)) => {
            law_signed_is_one_to_one(a as int, b as int);
        },
        (Operand::Flag(a), Operand::Flag(b)) => {
            reveal_strlit("true");
            reveal_strlit("false");
            assert("true"@.len() != "false"@.len());
        },
        _ => {},
    }
}

/// Text that ends in a comma, a space and something without a space splits in one way.
proof fn lemma_the_last_space_splits(
    left: Seq<char>,
    left_end: Seq<char>,
    right: Seq<char>,
    right_end: Seq<char>,
)
    requires
        left + ", "@ + left_end == right + ", "@ + right_end,
        forall|i: int| 0 <= i < left_end.len() ==> #[trigger] left_end[i] != ' ',
        forall|i: int| 0 <= i < right_end.len() ==> #[trigger] right_end[i] != ' ',
    ensures
        left == right,
        left_end == right_end,
{
    reveal_strlit(", ");
    let whole = left + ", "@ + left_end;
    let other = right + ", "@ + right_end;
    assert(", "@.len() == 2 && ", "@[1] == ' ');
    assert(whole[left.len() as int + 1] == ", "@[1]);
    assert(other[right.len() as int + 1] == ", "@[1]);
    let left_front = left + ", "@;
    let right_front = right + ", "@;
    assert(left_front.len() == left.len() + 2 && right_front.len() == right.len() + 2);
    assert(whole.len() == left_front.len() + left_end.len());
    assert(whole.len() == right_front.len() + right_end.len());
    assert(whole[left.len() as int + 1] == ' ' && whole[right.len() as int + 1] == ' ');
    if left.len() < right.len() {
        assert(whole[right.len() as int + 1] == left_end[right.len() - left.len() - 1]);
    }
    if right.len() < left.len() {
        assert(other[left.len() as int + 1] == right_end[left.len() - right.len() - 1]);
    }
    assert(whole.take(left.len() as int) =~= left);
    assert(other.take(left.len() as int) =~= right);
    assert(whole.skip(left.len() as int + 2) =~= left_end);
    assert(other.skip(left.len() as int + 2) =~= right_end);
}

/// Operands of the same kinds that are listed the same are the same.
proof fn lemma_a_list_is_its_text(left: Seq<Operand>, right: Seq<Operand>)
    requires
        left.len() == right.len(),
        forall|i: int| 0 <= i < left.len() ==> sort(#[trigger] left[i]) == sort(right[i]),
        listed(left) == listed(right),
    ensures
        left == right,
    decreases left.len(),
{
    if left.len() == 1 {
        lemma_an_operand_is_its_text(left[0], right[0]);
    } else if left.len() > 1 {
        lemma_an_operand_holds_no_space(left.last());
        lemma_an_operand_holds_no_space(right.last());
        lemma_the_last_space_splits(
            listed(left.drop_last()),
            left.last().text(),
            listed(right.drop_last()),
            right.last().text(),
        );
        lemma_a_list_is_its_text(left.drop_last(), right.drop_last());
        assert(sort(left[left.len() - 1]) == sort(right[left.len() - 1]));
        lemma_an_operand_is_its_text(left.last(), right.last());
        assert(left =~= left.drop_last().push(left.last()));
        assert(right =~= right.drop_last().push(right.last()));
    }
    assert(left =~= right);
}

/// Text that starts with something without a space and then a space splits in one way.
proof fn lemma_the_first_space_splits(
    left: Seq<char>,
    left_end: Seq<char>,
    right: Seq<char>,
    right_end: Seq<char>,
)
    requires
        left + " "@ + left_end == right + " "@ + right_end,
        forall|i: int| 0 <= i < left.len() ==> #[trigger] left[i] != ' ',
        forall|i: int| 0 <= i < right.len() ==> #[trigger] right[i] != ' ',
    ensures
        left == right,
        left_end == right_end,
{
    reveal_strlit(" ");
    let whole = left + " "@ + left_end;
    let other = right + " "@ + right_end;
    assert(" "@[0] == ' ');
    assert(whole[left.len() as int] == " "@[0]);
    assert(other[right.len() as int] == " "@[0]);
    if left.len() < right.len() {
        assert(other[left.len() as int] == right[left.len() as int]);
    }
    if right.len() < left.len() {
        assert(whole[right.len() as int] == left[right.len() as int]);
    }
    assert(whole.take(left.len() as int) =~= left);
    assert(other.take(left.len() as int) =~= right);
    assert(whole.skip(left.len() as int + 1) =~= left_end);
    assert(other.skip(left.len() as int + 1) =~= right_end);
}

/// One instruction with one list of operands is one instruction.
proof fn lemma_an_instruction_is_its_operands(left: Op, right: Op)
    requires
        opcode(left) == opcode(right),
    ensures
        left.operands().len() == right.operands().len(),
        forall|i: int|
            0 <= i < left.operands().len() ==> sort(#[trigger] left.operands()[i]) == sort(
                right.operands()[i],
            ),
        left.operands() == right.operands() ==> left == right,
{
    let a = left.operands();
    let b = right.operands();
    if a == b {
        assert(a[0] == b[0]);
        assert(a[1] == b[1]);
        assert(a[2] == b[2]);
        assert(a[3] == b[3]);
        assert(a[4] == b[4]);
        assert(a[5] == b[5]);
    }
}

/// No two different instructions print alike.
pub proof fn law_an_instruction_is_its_text(left: Op, right: Op)
    ensures
        left.text() == right.text() <==> left == right,
{
    if left.text() == right.text() {
        lemma_a_mnemonic_names_the_instruction(left, right);
        lemma_a_mnemonic_names_the_instruction(right, left);
        reveal_strlit(" ");
        assert(" "@[0] == ' ');
        let a = left.mnemonic();
        let b = right.mnemonic();
        if left.operands().len() == 0 && right.operands().len() > 0 {
            assert(right.text()[b.len() as int] == " "@[0]);
            assert(a[b.len() as int] != ' ');
        } else if left.operands().len() > 0 && right.operands().len() == 0 {
            assert(left.text()[a.len() as int] == " "@[0]);
            assert(b[a.len() as int] != ' ');
        } else if left.operands().len() > 0 {
            lemma_the_first_space_splits(a, listed(left.operands()), b, listed(right.operands()));
            lemma_an_instruction_is_its_operands(left, right);
            lemma_a_list_is_its_text(left.operands(), right.operands());
        } else {
            lemma_an_instruction_is_its_operands(left, right);
            assert(left.operands() =~= right.operands());
        }
    }
}

} // verus!
