//! Tests of the constant pool, the emitted bytecode, and the virtual machine
//! on hand-built units.

use luar::bytecode::Bytecode;
use luar::lexer::Lexer;
use luar::lvalue::{LValue, NativeFn};
use luar::parser::{add_const, load, ParseProto};
use luar::vm::{lib_print, ExeState, RuntimeError};

#[test]
fn pool_dedup_returns_existing_index() {
    let mut pool: Vec<LValue> = Vec::new();
    let i1 = add_const(&mut pool, LValue::String("x".to_string()));
    let i2 = add_const(&mut pool, LValue::Integer(7));
    assert_eq!(i1, 0);
    assert_eq!(i2, 1);
    assert_eq!(pool.len(), 2);
    // re-inserting equal values: same indices, length unchanged
    let j1 = add_const(&mut pool, LValue::String("x".to_string()));
    let j2 = add_const(&mut pool, LValue::Integer(7));
    assert_eq!(j1, 0);
    assert_eq!(j2, 1);
    assert_eq!(pool.len(), 2);
}

#[test]
fn pool_distinguishes_value_kinds() {
    let mut pool: Vec<LValue> = Vec::new();
    add_const(&mut pool, LValue::String("1".to_string()));
    add_const(&mut pool, LValue::Integer(1));
    add_const(&mut pool, LValue::Float("1.".to_string()));
    add_const(&mut pool, LValue::Nil);
    add_const(&mut pool, LValue::Boolean(true));
    assert_eq!(pool.len(), 5);
}

#[test]
fn compact_integer_compiles_to_immediate_load() {
    let proto = load(Lexer::new("print(42)")).unwrap();
    assert_eq!(proto.constants, vec![LValue::String("print".to_string())]);
    assert_eq!(
        proto.byte_codes,
        vec![
            Bytecode::GetGlobal(0, 0),
            Bytecode::LoadInt(1, 42),
            Bytecode::Call(0, 1),
        ]
    );
    let mut state = ExeState::new();
    assert_eq!(state.execute(&proto), Ok(()));
    assert_eq!(state.output, vec!["42".to_string()]);
}

#[test]
fn immediate_range_boundaries() {
    let proto = load(Lexer::new("print(32767) print(32768)")).unwrap();
    assert_eq!(
        proto.constants,
        vec![
            LValue::String("print".to_string()),
            LValue::Integer(32768),
        ]
    );
    assert_eq!(
        proto.byte_codes,
        vec![
            Bytecode::GetGlobal(0, 0),
            Bytecode::LoadInt(1, 32767),
            Bytecode::Call(0, 1),
            Bytecode::GetGlobal(0, 0),
            Bytecode::LoadConst(1, 1),
            Bytecode::Call(0, 1),
        ]
    );
}

#[test]
fn float_literal_goes_through_the_pool() {
    let proto = load(Lexer::new("print(1.5)")).unwrap();
    assert_eq!(
        proto.constants,
        vec![
            LValue::String("print".to_string()),
            LValue::Float("1.5".to_string()),
        ]
    );
    assert_eq!(
        proto.byte_codes,
        vec![
            Bytecode::GetGlobal(0, 0),
            Bytecode::LoadConst(1, 1),
            Bytecode::Call(0, 1),
        ]
    );
}

#[test]
fn shared_pool_entries_across_statements() {
    let proto = load(Lexer::new("print(\"x\") print(\"x\")")).unwrap();
    assert_eq!(
        proto.constants,
        vec![
            LValue::String("print".to_string()),
            LValue::String("x".to_string()),
        ]
    );
    assert_eq!(
        proto.byte_codes,
        vec![
            Bytecode::GetGlobal(0, 0),
            Bytecode::LoadConst(1, 1),
            Bytecode::Call(0, 1),
            Bytecode::GetGlobal(0, 0),
            Bytecode::LoadConst(1, 1),
            Bytecode::Call(0, 1),
        ]
    );
}

#[test]
fn nil_and_booleans_load_as_immediates() {
    let proto = load(Lexer::new("print(nil) print(true) print(false)")).unwrap();
    assert_eq!(proto.constants, vec![LValue::String("print".to_string())]);
    assert_eq!(
        proto.byte_codes,
        vec![
            Bytecode::GetGlobal(0, 0),
            Bytecode::LoadNil(1),
            Bytecode::Call(0, 1),
            Bytecode::GetGlobal(0, 0),
            Bytecode::LoadBool(1, true),
            Bytecode::Call(0, 1),
            Bytecode::GetGlobal(0, 0),
            Bytecode::LoadBool(1, false),
            Bytecode::Call(0, 1),
        ]
    );
}

#[test]
fn set_stack_extends_with_nil() {
    let mut state = ExeState::new();
    state.set_stack(3, LValue::Integer(9));
    assert_eq!(
        state.stack,
        vec![
            LValue::Nil,
            LValue::Nil,
            LValue::Nil,
            LValue::Integer(9),
        ]
    );
    // writing below the length overwrites in place and never shrinks
    state.set_stack(1, LValue::Boolean(true));
    assert_eq!(state.stack.len(), 4);
    assert_eq!(state.stack[1], LValue::Boolean(true));
}

#[test]
fn lib_print_reads_register_one() {
    let mut state = ExeState::new();
    state.set_stack(1, LValue::String("hey".to_string()));
    assert_eq!(lib_print(&mut state), 0);
    assert_eq!(state.output, vec!["hey".to_string()]);
}

#[test]
fn non_string_global_key_faults() {
    let proto = ParseProto {
        constants: vec![LValue::Integer(3)],
        byte_codes: vec![Bytecode::GetGlobal(0, 0)],
    };
    let mut state = ExeState::new();
    assert_eq!(state.execute(&proto), Err(RuntimeError::InvalidGlobalKey));
    assert!(state.output.is_empty());
}

#[test]
fn calling_a_non_function_register_faults() {
    let proto = ParseProto {
        constants: vec![],
        byte_codes: vec![Bytecode::LoadInt(0, 5), Bytecode::Call(0, 1)],
    };
    let mut state = ExeState::new();
    assert_eq!(state.execute(&proto), Err(RuntimeError::InvalidCallTarget));
}

#[test]
fn calling_an_unwritten_register_faults() {
    let proto = ParseProto {
        constants: vec![],
        byte_codes: vec![Bytecode::Call(3, 1)],
    };
    let mut state = ExeState::new();
    assert_eq!(state.execute(&proto), Err(RuntimeError::InvalidCallTarget));
}

#[test]
fn negative_integers_print_with_sign() {
    let proto = ParseProto {
        constants: vec![
            LValue::String("print".to_string()),
            LValue::Integer(-42),
        ],
        byte_codes: vec![
            Bytecode::GetGlobal(0, 0),
            Bytecode::LoadConst(1, 1),
            Bytecode::Call(0, 1),
        ],
    };
    let mut state = ExeState::new();
    assert_eq!(state.execute(&proto), Ok(()));
    assert_eq!(state.output, vec!["-42".to_string()]);
}

#[test]
fn extreme_integers_print_exactly() {
    let proto = ParseProto {
        constants: vec![
            LValue::String("print".to_string()),
            LValue::Integer(i64::MIN),
            LValue::Integer(i64::MAX),
        ],
        byte_codes: vec![
            Bytecode::GetGlobal(0, 0),
            Bytecode::LoadConst(1, 1),
            Bytecode::Call(0, 1),
            Bytecode::GetGlobal(0, 0),
            Bytecode::LoadConst(1, 2),
            Bytecode::Call(0, 1),
        ],
    };
    let mut state = ExeState::new();
    assert_eq!(state.execute(&proto), Ok(()));
    assert_eq!(
        state.output,
        vec![
            "-9223372036854775808".to_string(),
            "9223372036854775807".to_string(),
        ]
    );
}

#[test]
fn negative_immediate_prints_with_sign() {
    let proto = ParseProto {
        constants: vec![LValue::String("print".to_string())],
        byte_codes: vec![
            Bytecode::GetGlobal(0, 0),
            Bytecode::LoadInt(1, -7),
            Bytecode::Call(0, 1),
        ],
    };
    let mut state = ExeState::new();
    assert_eq!(state.execute(&proto), Ok(()));
    assert_eq!(state.output, vec!["-7".to_string()]);
}

#[test]
fn function_value_prints_as_function() {
    let proto = load(Lexer::new("print \"f\"")).unwrap();
    let mut state = ExeState::new();
    assert_eq!(state.execute(&proto), Ok(()));
    // the callable itself sits in register 0 after GetGlobal
    assert_eq!(state.stack[0].to_text(), "function".to_string());
}

#[test]
fn float_texts_deduplicate_by_content() {
    let proto = load(Lexer::new("print(1.5) print(1.5)")).unwrap();
    assert_eq!(
        proto.constants,
        vec![
            LValue::String("print".to_string()),
            LValue::Float("1.5".to_string()),
        ]
    );
}

#[test]
fn caller_supplied_registry() {
    let globals = vec![("say".to_string(), LValue::Function(NativeFn::Print))];
    let mut state = ExeState::with_globals(globals);
    let proto = load(Lexer::new("say(5)")).unwrap();
    assert_eq!(state.execute(&proto), Ok(()));
    assert_eq!(state.output, vec!["5".to_string()]);
}

#[test]
fn empty_registry_leaves_print_unbound() {
    let mut bare = ExeState::with_globals(Vec::new());
    let proto = load(Lexer::new("print(1)")).unwrap();
    assert_eq!(bare.execute(&proto), Err(RuntimeError::InvalidCallTarget));
    assert!(bare.output.is_empty());
}
