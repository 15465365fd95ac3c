//! The heap, the stack primitives and single natives, taken one by one.
use enalang::blocks::Blocks;
use enalang::heap::Heap;
use enalang::ir::{Block, BlockRunType, IRCode, IR};
use enalang::machine::{VMError, VMOptions, VM};
use enalang::native;
use enalang::supervisor::{ThreadSupervisor, ThreadSupervisorError};
use enalang::value::{value_eq, Value};

#[test]
fn heap_allocates_lowest_free_base() {
    let mut h = Heap::new(true, false);
    let a = h.allocate(2).unwrap();
    let b = h.allocate(1).unwrap();
    assert_eq!(a.pointer, 0);
    assert_eq!(b.pointer, 2);
    h.free(a.pointer).unwrap();
    let c = h.allocate(1).unwrap();
    assert_eq!(c.pointer, 0);
}

#[test]
fn heap_set_and_get_round_trip() {
    let mut h = Heap::new(true, false);
    let a = h.allocate(1).unwrap();
    h.set(a.pointer, Value::Number(42)).unwrap();
    assert_eq!(h.get(a.pointer), Some(Value::Number(42)));
    assert_eq!(h.get(a.pointer + 1), None);
}

#[test]
fn heap_free_clears_slots() {
    let mut h = Heap::new(true, false);
    let a = h.allocate(2).unwrap();
    h.set(a.pointer, Value::Number(1)).unwrap();
    h.set(a.pointer + 1, Value::Number(2)).unwrap();
    h.free(a.pointer).unwrap();
    assert_eq!(h.get(a.pointer), None);
    assert_eq!(h.get(a.pointer + 1), None);
}

#[test]
fn heap_rc_zero_frees_block() {
    let mut h = Heap::new(true, false);
    let a = h.allocate(1).unwrap();
    h.set(a.pointer, Value::Number(9)).unwrap();
    // The single count dies, so the range is collected.
    h.rc_minus(a.pointer).unwrap();
    assert_eq!(h.get(a.pointer), None);
    let b = h.allocate(1).unwrap();
    assert_eq!(b.pointer, 0);
}

#[test]
fn heap_rc_plus_keeps_block_alive() {
    let mut h = Heap::new(true, false);
    let a = h.allocate(1).unwrap();
    h.set(a.pointer, Value::Number(9)).unwrap();
    h.rc_plus(a.pointer).unwrap();
    h.rc_minus(a.pointer).unwrap();
    assert_eq!(h.get(a.pointer), Some(Value::Number(9)));
}

#[test]
fn heap_realloc_moves_slots() {
    let mut h = Heap::new(true, false);
    let a = h.allocate(1).unwrap();
    let _pad = h.allocate(1).unwrap();
    h.set(a.pointer, Value::Number(5)).unwrap();
    let np = h.realloc(a.pointer, 3).unwrap();
    assert!(np != a.pointer);
    assert_eq!(h.get(np), Some(Value::Number(5)));
    assert_eq!(h.get(a.pointer), None);
}

#[test]
fn heap_realloc_same_when_large_enough() {
    let mut h = Heap::new(true, false);
    let a = h.allocate(3).unwrap();
    assert_eq!(h.realloc(a.pointer, 2).unwrap(), a.pointer);
}

#[test]
fn rc_ops_are_silent_without_gc() {
    let mut h = Heap::new(false, false);
    // With the collector off a wild address is ignored.
    h.rc_minus(12345).unwrap();
    h.rc_plus(12345).unwrap();
}

#[test]
fn rc_on_wild_address_fails_with_gc() {
    let mut h = Heap::new(true, false);
    assert!(h.rc_minus(12345).is_err());
}

fn run_ops(code: Vec<IRCode>) -> Result<VM, VMError> {
    let mut ir = IR::new();
    ir.add_block(
        "main".to_string(),
        Block { global: true, run_type: BlockRunType::Unique, code },
        true,
    )
    .unwrap();
    let blocks = Blocks::new(native::group(), ir).unwrap();
    let mut vm = VM::new(VMOptions::new());
    vm.run(&"main".to_string(), blocks).map(|_| vm)
}

fn num(n: i64) -> IRCode {
    IRCode::PutValue(Value::Number(n))
}

#[test]
fn subtraction_takes_top_minus_second() {
    let vm = run_ops(vec![num(3), num(10), IRCode::Call("-".to_string())]).unwrap();
    assert_eq!(vm.stack, vec![Value::Number(7)]);
}

#[test]
fn multiplication_wraps() {
    let vm = run_ops(vec![num(6), num(7), IRCode::Call("*".to_string())]).unwrap();
    assert_eq!(vm.stack, vec![Value::Number(42)]);
}

#[test]
fn division_rounds_toward_zero() {
    let vm = run_ops(vec![num(2), num(-7), IRCode::Call("/".to_string())]).unwrap();
    assert_eq!(vm.stack, vec![Value::Number(-3)]);
}

#[test]
fn power_multiplies_out() {
    let vm = run_ops(vec![num(10), num(2), IRCode::Call("pow".to_string())]).unwrap();
    assert_eq!(vm.stack, vec![Value::Number(1024)]);
}

#[test]
fn root_finds_largest_whole_root() {
    let vm = run_ops(vec![num(2), num(8), IRCode::Call("root".to_string())]).unwrap();
    assert_eq!(vm.stack, vec![Value::Number(2)]);
    let vm = run_ops(vec![num(2), num(9), IRCode::Call("root".to_string())]).unwrap();
    assert_eq!(vm.stack, vec![Value::Number(3)]);
}

#[test]
fn comparisons_compare_top_against_second() {
    let vm = run_ops(vec![num(2), num(3), IRCode::Call(">".to_string())]).unwrap();
    assert_eq!(vm.stack, vec![Value::Boolean(true)]);
    let vm = run_ops(vec![num(2), num(3), IRCode::Call("<=".to_string())]).unwrap();
    assert_eq!(vm.stack, vec![Value::Boolean(false)]);
}

#[test]
fn equality_compares_values() {
    let vm = run_ops(vec![
        IRCode::PutValue(Value::String("a".to_string())),
        IRCode::PutValue(Value::String("a".to_string())),
        IRCode::Call("==".to_string()),
    ])
    .unwrap();
    assert_eq!(vm.stack, vec![Value::Boolean(true)]);
}

#[test]
fn stack_shuffles_work() {
    let vm = run_ops(vec![num(1), num(2), IRCode::Call("swap".to_string())]).unwrap();
    assert_eq!(vm.stack, vec![Value::Number(2), Value::Number(1)]);
    let vm = run_ops(vec![num(1), IRCode::Call("dup".to_string())]).unwrap();
    assert_eq!(vm.stack, vec![Value::Number(1), Value::Number(1)]);
    let vm = run_ops(vec![num(1), num(2), IRCode::Call("drop".to_string())]).unwrap();
    assert_eq!(vm.stack, vec![Value::Number(1)]);
    let vm = run_ops(vec![num(1), num(2), IRCode::Call("clear".to_string())]).unwrap();
    assert!(vm.stack.is_empty());
}

#[test]
fn peek_copies_from_depth() {
    let vm = run_ops(vec![num(10), num(20), num(1), IRCode::Call("peek".to_string())])
        .unwrap();
    assert_eq!(
        vm.stack,
        vec![Value::Number(10), Value::Number(20), Value::Number(10)]
    );
}

#[test]
fn drop_at_removes_from_depth() {
    let vm = run_ops(vec![num(10), num(20), num(1), IRCode::Call("drop_at".to_string())])
        .unwrap();
    assert_eq!(vm.stack, vec![Value::Number(20)]);
}

#[test]
fn booleans_combine() {
    let vm = run_ops(vec![
        IRCode::PutValue(Value::Boolean(true)),
        IRCode::PutValue(Value::Boolean(false)),
        IRCode::Call("or".to_string()),
        IRCode::Call("!".to_string()),
    ])
    .unwrap();
    assert_eq!(vm.stack, vec![Value::Boolean(false)]);
}

#[test]
fn conversions_between_kinds() {
    let vm = run_ops(vec![
        IRCode::PutValue(Value::Boolean(true)),
        IRCode::Call("into_number".to_string()),
    ])
    .unwrap();
    assert_eq!(vm.stack, vec![Value::Number(1)]);
    let vm = run_ops(vec![num(7), IRCode::Call("unsafe_into_ptr".to_string())]).unwrap();
    assert_eq!(vm.stack, vec![Value::Pointer(7)]);
    let vm = run_ops(vec![num(-9), IRCode::Call("into_string".to_string())]).unwrap();
    assert_eq!(vm.stack, vec![Value::String("-9".to_string())]);
    let vm = run_ops(vec![
        IRCode::PutValue(Value::Null),
        IRCode::Call("into_string".to_string()),
    ])
    .unwrap();
    assert_eq!(vm.stack, vec![Value::String("null".to_string())]);
}

#[test]
fn type_predicates_answer() {
    let vm = run_ops(vec![num(7), IRCode::Call("is_number".to_string())]).unwrap();
    assert_eq!(vm.stack, vec![Value::Boolean(true)]);
    let vm = run_ops(vec![num(7), IRCode::Call("is_string".to_string())]).unwrap();
    assert_eq!(vm.stack, vec![Value::Boolean(false)]);
    let vm = run_ops(vec![
        IRCode::PutValue(Value::Null),
        IRCode::Call("is_null".to_string()),
    ])
    .unwrap();
    assert_eq!(vm.stack, vec![Value::Boolean(true)]);
}

#[test]
fn exceptions_wrap_and_unwrap() {
    let vm = run_ops(vec![
        num(3),
        IRCode::Call("into_exception".to_string()),
        IRCode::Call("is_exception".to_string()),
    ])
    .unwrap();
    assert_eq!(vm.stack, vec![Value::Boolean(true)]);
    let vm = run_ops(vec![
        num(3),
        IRCode::Call("into_exception".to_string()),
        IRCode::Call("unwrap_exception".to_string()),
    ])
    .unwrap();
    assert_eq!(vm.stack, vec![Value::Number(3)]);
}

#[test]
fn throw_raises_the_payload() {
    let r = run_ops(vec![
        num(3),
        IRCode::Call("into_exception".to_string()),
        IRCode::Call("throw".to_string()),
    ]);
    match r {
        Err(e) => assert_eq!(e, VMError::RuntimeException(Value::Number(3))),
        Ok(_) => panic!("expected a raised exception"),
    }
}

#[test]
fn string_natives_work() {
    let vm = run_ops(vec![
        IRCode::PutValue(Value::String("de".to_string())),
        IRCode::PutValue(Value::String("abc".to_string())),
        IRCode::Call("string.concat".to_string()),
    ])
    .unwrap();
    assert_eq!(vm.stack, vec![Value::String("abcde".to_string())]);
    let vm = run_ops(vec![
        IRCode::PutValue(Value::String("abc".to_string())),
        IRCode::Call("string.len".to_string()),
    ])
    .unwrap();
    assert_eq!(vm.stack, vec![Value::Number(3)]);
    let vm = run_ops(vec![
        IRCode::PutValue(Value::String("b".to_string())),
        IRCode::PutValue(Value::String("abc".to_string())),
        IRCode::Call("string.contains".to_string()),
    ])
    .unwrap();
    assert_eq!(vm.stack, vec![Value::Boolean(true)]);
    let vm = run_ops(vec![
        IRCode::PutValue(Value::String("ab".to_string())),
        IRCode::Call("string.chars".to_string()),
    ])
    .unwrap();
    assert_eq!(
        vm.stack,
        vec![
            Value::String("a".to_string()),
            Value::String("b".to_string()),
            Value::Number(2)
        ]
    );
    let vm = run_ops(vec![
        IRCode::PutValue(Value::String(",".to_string())),
        IRCode::PutValue(Value::String("a,b".to_string())),
        IRCode::Call("string.split".to_string()),
    ])
    .unwrap();
    assert_eq!(
        vm.stack,
        vec![
            Value::String("a".to_string()),
            Value::String("b".to_string()),
            Value::Number(2)
        ]
    );
}

#[test]
fn block_introspection() {
    let vm = run_ops(vec![
        IRCode::PutValue(Value::Block("main".to_string())),
        IRCode::Call("block_exists?".to_string()),
    ])
    .unwrap();
    assert_eq!(vm.stack, vec![Value::Boolean(true)]);
    let vm = run_ops(vec![
        IRCode::PutValue(Value::Block("nope".to_string())),
        IRCode::Call("block_exists?".to_string()),
    ])
    .unwrap();
    assert_eq!(vm.stack, vec![Value::Boolean(false)]);
}

#[test]
fn annotation_native_reads_annotation() {
    let mut ir = IR::new();
    ir.add_block(
        "main".to_string(),
        Block {
            global: true,
            run_type: BlockRunType::Unique,
            code: vec![
                IRCode::PutValue(Value::Block("main".to_string())),
                IRCode::Call("ena.vm.get_annotation".to_string()),
            ],
        },
        true,
    )
    .unwrap();
    ir.annotations.insert("main".to_string(), "docs".to_string());
    let blocks = Blocks::new(native::group(), ir).unwrap();
    let mut vm = VM::new(VMOptions::new());
    vm.run(&"main".to_string(), blocks).unwrap();
    assert_eq!(vm.stack, vec![Value::String("docs".to_string())]);
}

#[test]
fn call_native_invokes_block_value() {
    let mut ir = IR::new();
    ir.add_block(
        "main".to_string(),
        Block {
            global: true,
            run_type: BlockRunType::Unique,
            code: vec![
                IRCode::PutValue(Value::Block("f".to_string())),
                IRCode::Call("call".to_string()),
            ],
        },
        true,
    )
    .unwrap();
    ir.add_block(
        "f".to_string(),
        Block {
            global: true,
            run_type: BlockRunType::Unique,
            code: vec![IRCode::PutValue(Value::Number(11))],
        },
        true,
    )
    .unwrap();
    let blocks = Blocks::new(native::group(), ir).unwrap();
    let mut vm = VM::new(VMOptions::new());
    vm.run(&"main".to_string(), blocks).unwrap();
    assert_eq!(vm.stack, vec![Value::Number(11)]);
}

#[test]
fn deep_value_equality_sees_text() {
    let a = Value::Exception(Box::new(Value::String("x".to_string())));
    let b = Value::Exception(Box::new(Value::String("x".to_string())));
    assert!(value_eq(&a, &b));
    let c = Value::Exception(Box::new(Value::String("y".to_string())));
    assert!(!value_eq(&a, &c));
}

#[test]
fn supervisor_delivers_messages_in_order() {
    let mut sup = ThreadSupervisor::new();
    let a = sup.supervise(VM::new(VMOptions::new())).unwrap();
    let b = sup.supervise(VM::new(VMOptions::new())).unwrap();
    assert_eq!(a, 1);
    assert_eq!(b, 2);
    sup.send_message(Value::Number(1), b, a).unwrap();
    sup.send_message(Value::Number(2), b, a).unwrap();
    let vm_b = sup.get_thread(b).unwrap();
    let mailbox = vm_b.message_stack.as_ref().unwrap();
    assert_eq!(mailbox.len(), 2);
    assert_eq!(mailbox[0].content, Value::Number(1));
    assert_eq!(mailbox[1].content, Value::Number(2));
    assert_eq!(mailbox[0].from, a);
    assert_eq!(
        sup.send_message(Value::Null, 99, a),
        Err(ThreadSupervisorError::UnknownThread(99))
    );
}

#[test]
fn supervisor_runs_a_thread() {
    let mut ir = IR::new();
    ir.add_block(
        "main".to_string(),
        Block {
            global: true,
            run_type: BlockRunType::Unique,
            code: vec![num(4)],
        },
        true,
    )
    .unwrap();
    let blocks = Blocks::new(native::group(), ir).unwrap();
    let mut sup = ThreadSupervisor::new();
    let id = sup.supervise(VM::new(VMOptions::new())).unwrap();
    sup.run_blocking(id, &"main".to_string(), blocks).unwrap();
    assert_eq!(sup.get_thread(id).unwrap().stack, vec![Value::Number(4)]);
}

#[test]
fn pointer_arithmetic_offsets_into_a_block() {
    // Allocate two slots, store 42 at base+1 through address arithmetic,
    // and read it back the same way.
    let vm = run_ops(vec![
        num(2),
        IRCode::Call("alloc".to_string()),
        IRCode::Call("dup".to_string()),
        num(1),
        IRCode::Call("swap".to_string()),
        IRCode::Call("+".to_string()),
        num(42),
        IRCode::Call("swap".to_string()),
        IRCode::Call("=".to_string()),
        IRCode::Call("dup".to_string()),
        num(1),
        IRCode::Call("+".to_string()),
        IRCode::Call("@".to_string()),
    ])
    .unwrap();
    assert_eq!(vm.stack.last(), Some(&Value::Number(42)));
}

#[test]
fn type_mismatches_name_their_errors() {
    match run_ops(vec![num(1), IRCode::PutValue(Value::Null), IRCode::Call("+".to_string())]) {
        Err(e) => assert_eq!(e, VMError::ExpectedNumber),
        Ok(_) => panic!("expected a type error"),
    }
    match run_ops(vec![
        num(1),
        IRCode::PutValue(Value::Boolean(true)),
        IRCode::Call("and".to_string()),
    ]) {
        Err(e) => assert_eq!(e, VMError::ExpectedBoolean),
        Ok(_) => panic!("expected a type error"),
    }
}
