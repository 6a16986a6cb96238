//! The constant pool.

use katsu::ir::constant::{ConstIndex, Constant, ConstantPool};

fn number(pool: &mut ConstantPool, value: f64) -> ConstIndex {
    pool.number(value.to_bits(), &value.to_string())
}

#[test]
fn the_same_string_twice_is_one_entry() {
    let mut pool = ConstantPool::default();
    let first = pool.string("length");
    let second = pool.string("length");

    assert_eq!(first, second);
    assert_eq!(pool.len(), 1);
}

#[test]
fn the_same_number_twice_is_one_entry() {
    let mut pool = ConstantPool::default();
    assert_eq!(number(&mut pool, 1.5), number(&mut pool, 1.5));
    assert_eq!(pool.len(), 1);
}

#[test]
fn negative_zero_is_not_positive_zero() {
    // If these shared an entry then `1 / -0` would produce positive infinity, which is the kind
    // of bug that survives a whole test suite and then shows up in somebody's physics code.
    let mut pool = ConstantPool::default();
    let positive = number(&mut pool, 0.0);
    let negative = number(&mut pool, -0.0);

    assert_ne!(positive, negative);
    assert_eq!(pool.len(), 2);
}

#[test]
fn a_number_and_a_string_do_not_collide() {
    let mut pool = ConstantPool::default();
    number(&mut pool, 1.0);
    pool.string("1");
    assert_eq!(pool.len(), 2);
}

#[test]
fn constants_come_back_in_the_order_they_were_added() {
    let mut pool = ConstantPool::default();
    pool.string("first");
    number(&mut pool, 2.0);
    pool.string("third");

    let index = pool.string("third");
    let Some(Constant::String(third)) = pool.get(index) else {
        panic!("expected the string back");
    };
    assert_eq!(third.as_str(), "third");
    assert_eq!(pool.values().len(), 3);
}

#[test]
fn a_string_constant_prints_quoted_so_a_disassembly_is_unambiguous() {
    let mut pool = ConstantPool::default();
    let index = pool.string("hello world");
    assert_eq!(
        pool.get(index).expect("just added").to_string(),
        "\"hello world\""
    );
}
