use mini_compiler::ast::statement::{BasicType, Type};
use mini_compiler::code_generator::{Address, AddressMode, CodeGenError};
use mini_compiler::symbol_table::{type_width, SymbolTable};

fn int_type() -> Type {
    Type { basic_type: BasicType::Int, element_width: 4, dim_width: vec![] }
}

fn float_array(extent: u32) -> Type {
    Type { basic_type: BasicType::Float, element_width: 4, dim_width: vec![extent * 4, 4] }
}

fn at(offset: i32) -> Address {
    Address { mode: AddressMode::FramePointer, place: offset }
}

#[test]
fn frame_width_of_two_scalars_and_an_array() {
    let mut table = SymbolTable::new();
    table.push_frame();
    assert_eq!(table.get_frame_width(), 0);
    assert_eq!(table.declare(String::from("a"), int_type()), Ok(at(0)));
    assert_eq!(table.declare(String::from("b"), int_type()), Ok(at(4)));
    assert_eq!(table.declare(String::from("v"), float_array(3)), Ok(at(8)));
    assert_eq!(table.get_frame_width(), 20);
}

#[test]
fn widths_of_types() {
    assert_eq!(type_width(&int_type()), 4);
    assert_eq!(type_width(&float_array(3)), 12);
    let matrix = Type { basic_type: BasicType::Int, element_width: 4, dim_width: vec![24, 12, 4] };
    assert_eq!(type_width(&matrix), 24);
}

#[test]
fn lookup_searches_the_innermost_frame_only() {
    let mut table = SymbolTable::new();
    table.push_frame();
    table.declare(String::from("x"), int_type()).unwrap();
    assert_eq!(table.get_ide("x").unwrap().address, at(0));
    assert_eq!(table.get_ide("x").unwrap().typeinfo, int_type());
    assert!(table.get_ide("y").is_none());
    table.push_frame();
    assert_eq!(table.depth(), 2);
    assert!(table.get_ide("x").is_none());
    assert_eq!(table.resolve("x").unwrap().address, at(0));
    assert!(table.resolve("y").is_none());
    assert_eq!(table.declare(String::from("x"), float_array(2)), Ok(at(4)));
    assert_eq!(table.resolve("x").unwrap().address, at(4));
    assert_eq!(table.get_ide("x").unwrap().typeinfo, float_array(2));
    assert_eq!(table.get_frame_width(), 8);
    table.pop_frame();
    assert_eq!(table.get_ide("x").unwrap().address, at(0));
    assert_eq!(table.get_frame_width(), 4);
}

#[test]
fn frames_behind_one_another_share_no_bytes() {
    let mut table = SymbolTable::new();
    table.push_frame();
    table.declare(String::from("a"), float_array(5)).unwrap();
    table.push_frame();
    assert_eq!(table.stack_top(), Some(20));
    assert_eq!(table.declare(String::from("b"), int_type()), Ok(at(20)));
    table.pop_frame();
    table.push_frame();
    assert_eq!(table.declare(String::from("c"), int_type()), Ok(at(20)));
}

#[test]
fn redeclaration_is_refused() {
    let mut table = SymbolTable::new();
    table.push_frame();
    table.declare(String::from("x"), int_type()).unwrap();
    assert_eq!(table.declare(String::from("x"), int_type()), Err(CodeGenError::Redeclared));
    assert_eq!(
        table.put(String::from("x"), float_array(3), at(16)),
        Err(CodeGenError::Redeclared)
    );
    assert_eq!(table.get_frame_width(), 4);
    assert_eq!(table.get_ide("x").unwrap().typeinfo, int_type());
}

#[test]
fn put_registers_the_given_address() {
    let mut table = SymbolTable::new();
    table.push_frame();
    let reg = Address { mode: AddressMode::Register, place: 7 };
    assert_eq!(table.put(String::from("t"), int_type(), reg), Ok(()));
    assert_eq!(table.get_ide("t").unwrap().address, reg);
    assert_eq!(table.get_frame_width(), 4);
}

#[test]
fn frame_too_large() {
    let mut table = SymbolTable::new();
    table.push_frame();
    let big = Type { basic_type: BasicType::Int, element_width: 4, dim_width: vec![2147483644, 4] };
    assert_eq!(table.declare(String::from("a"), big.duplicate()), Ok(at(0)));
    assert_eq!(table.declare(String::from("b"), int_type()), Err(CodeGenError::FrameTooLarge));
    assert_eq!(table.get_frame_width(), 2147483644);
    // put is bounded by the width of 32 bits only
    let reg = Address { mode: AddressMode::Register, place: 1 };
    assert_eq!(table.put(String::from("b"), big.duplicate(), reg), Ok(()));
    assert_eq!(table.get_frame_width(), 4294967288);
    assert_eq!(table.stack_top(), None);
    assert_eq!(table.put(String::from("c"), float_array(3), reg), Err(CodeGenError::FrameTooLarge));
}
