//! End-to-end programs run against the machine.
use enalang::blocks::Blocks;
use enalang::ir::{Block, BlockRunType, IRCode, IR};
use enalang::machine::{VMError, VMOptions, VM};
use enalang::native;
use enalang::value::Value;

fn unique(code: Vec<IRCode>) -> Block {
    Block { global: true, run_type: BlockRunType::Unique, code }
}

fn once(code: Vec<IRCode>) -> Block {
    Block { global: true, run_type: BlockRunType::Once, code }
}

fn run_ir(ir: IR) -> Result<VM, VMError> {
    let blocks = Blocks::new(native::group(), ir).unwrap();
    let mut vm = VM::new(VMOptions::new());
    vm.run(&"main".to_string(), blocks).map(|_| vm)
}

#[test]
fn arithmetic_main_pushes_five() {
    let mut ir = IR::new();
    ir.add_block(
        "main".to_string(),
        unique(vec![
            IRCode::PutValue(Value::Number(2)),
            IRCode::PutValue(Value::Number(3)),
            IRCode::Call("+".to_string()),
        ]),
        true,
    )
    .unwrap();
    let vm = run_ir(ir).unwrap();
    assert_eq!(vm.stack, vec![Value::Number(5)]);
}

#[test]
fn memoized_block_runs_once() {
    let mut ir = IR::new();
    ir.add_block(
        "main".to_string(),
        unique(vec![
            IRCode::Call("k".to_string()),
            IRCode::Call("k".to_string()),
            IRCode::Call("+".to_string()),
        ]),
        true,
    )
    .unwrap();
    ir.add_block(
        "k".to_string(),
        once(vec![IRCode::PutValue(Value::Number(7))]),
        true,
    )
    .unwrap();
    let vm = run_ir(ir).unwrap();
    assert_eq!(vm.stack, vec![Value::Number(14)]);
}

#[test]
fn single_eval_pushes_identical_tops() {
    let mut ir = IR::new();
    ir.add_block(
        "main".to_string(),
        unique(vec![
            IRCode::Call("k".to_string()),
            IRCode::Call("k".to_string()),
        ]),
        true,
    )
    .unwrap();
    ir.add_block(
        "k".to_string(),
        once(vec![IRCode::PutValue(Value::Number(7))]),
        true,
    )
    .unwrap();
    let vm = run_ir(ir).unwrap();
    assert_eq!(vm.stack, vec![Value::Number(7), Value::Number(7)]);
}

#[test]
fn heap_round_trip_stores_and_rereads() {
    // Allocate one slot, store 42 in it, then deref it again.
    let mut ir = IR::new();
    ir.add_block(
        "main".to_string(),
        unique(vec![
            IRCode::PutValue(Value::Number(1)),
            IRCode::Call("alloc".to_string()),
            IRCode::Call("dup".to_string()),
            IRCode::PutValue(Value::Number(42)),
            IRCode::Call("swap".to_string()),
            IRCode::Call("=".to_string()),
            IRCode::Call("@".to_string()),
        ]),
        true,
    )
    .unwrap();
    let vm = run_ir(ir).unwrap();
    assert_eq!(vm.stack.last(), Some(&Value::Number(42)));
}

#[test]
fn gc_on_and_off_agree_on_final_stack() {
    let build = || {
        let mut ir = IR::new();
        ir.add_block(
            "main".to_string(),
            unique(vec![
                IRCode::PutValue(Value::Number(1)),
                IRCode::Call("alloc".to_string()),
                IRCode::Call("dup".to_string()),
                IRCode::PutValue(Value::Number(42)),
                IRCode::Call("swap".to_string()),
                IRCode::Call("=".to_string()),
                IRCode::Call("@".to_string()),
            ]),
            true,
        )
        .unwrap();
        ir
    };
    let blocks_on = Blocks::new(native::group(), build()).unwrap();
    let blocks_off = Blocks::new(native::group(), build()).unwrap();
    let mut with_gc = VM::new(VMOptions::new());
    with_gc.run(&"main".to_string(), blocks_on).unwrap();
    let mut no_gc = VM::new(VMOptions {
        debug_stack: false,
        enable_gc: false,
        debug_gc: false,
        debug_calls: false,
    });
    no_gc.run(&"main".to_string(), blocks_off).unwrap();
    assert_eq!(with_gc.stack, no_gc.stack);
}

#[test]
fn try_catches_a_failing_block() {
    let mut ir = IR::new();
    ir.add_block(
        "main".to_string(),
        unique(vec![
            IRCode::PutValue(Value::Block("boom".to_string())),
            IRCode::Call("try".to_string()),
        ]),
        true,
    )
    .unwrap();
    ir.add_block(
        "boom".to_string(),
        unique(vec![IRCode::Call("drop".to_string())]),
        true,
    )
    .unwrap();
    let vm = run_ir(ir).unwrap();
    assert_eq!(vm.stack.len(), 1);
    assert!(matches!(vm.stack[0], Value::Exception(_)));
}

#[test]
fn local_shadowing_is_rejected() {
    let mut ir = IR::new();
    ir.add_block(
        "main".to_string(),
        unique(vec![
            IRCode::LocalBlock("x".to_string(), BlockRunType::Unique, vec![]),
            IRCode::LocalBlock("x".to_string(), BlockRunType::Unique, vec![]),
        ]),
        true,
    )
    .unwrap();
    match run_ir(ir) {
        Err(e) => assert!(matches!(e, VMError::CannotShadowBlocksInLocalScope(_))),
        Ok(_) => panic!("expected a shadowing error"),
    }
}

#[test]
fn call_stack_matches_scopes_after_run() {
    let mut ir = IR::new();
    ir.add_block(
        "main".to_string(),
        unique(vec![IRCode::PutValue(Value::Number(9))]),
        true,
    )
    .unwrap();
    let vm = run_ir(ir).unwrap();
    assert_eq!(vm.call_stack.len() + 1, vm.scope_manager.scopes.len());
}

#[test]
fn early_return_stops_the_body() {
    let mut ir = IR::new();
    ir.add_block(
        "main".to_string(),
        unique(vec![
            IRCode::PutValue(Value::Number(1)),
            IRCode::Return,
            IRCode::PutValue(Value::Number(2)),
        ]),
        true,
    )
    .unwrap();
    let vm = run_ir(ir).unwrap();
    assert_eq!(vm.stack, vec![Value::Number(1)]);
}

#[test]
fn while_loop_counts_down() {
    // Push 3; the loop body decrements the counter and re-pushes the
    // continuation flag until the counter hits zero.
    let mut ir = IR::new();
    ir.add_block(
        "main".to_string(),
        unique(vec![
            IRCode::PutValue(Value::Number(3)),
            IRCode::PutValue(Value::Boolean(true)),
            IRCode::While("step".to_string()),
        ]),
        true,
    )
    .unwrap();
    // step: n -> n-1, then push whether to continue.
    ir.add_block(
        "step".to_string(),
        unique(vec![
            IRCode::PutValue(Value::Number(1)),
            IRCode::Call("swap".to_string()),
            IRCode::Call("-".to_string()),
            IRCode::Call("dup".to_string()),
            IRCode::PutValue(Value::Number(0)),
            IRCode::Call("swap".to_string()),
            IRCode::Call(">".to_string()),
        ]),
        true,
    )
    .unwrap();
    let vm = run_ir(ir).unwrap();
    assert_eq!(vm.stack, vec![Value::Number(0)]);
}

#[test]
fn if_runs_branch_on_true_only() {
    let mut ir = IR::new();
    ir.add_block(
        "main".to_string(),
        unique(vec![
            IRCode::PutValue(Value::Boolean(false)),
            IRCode::If("yes".to_string()),
            IRCode::PutValue(Value::Boolean(true)),
            IRCode::If("yes".to_string()),
        ]),
        true,
    )
    .unwrap();
    ir.add_block(
        "yes".to_string(),
        unique(vec![IRCode::PutValue(Value::Number(5))]),
        true,
    )
    .unwrap();
    let vm = run_ir(ir).unwrap();
    assert_eq!(vm.stack, vec![Value::Number(5)]);
}

#[test]
fn unknown_block_reported() {
    let mut ir = IR::new();
    ir.add_block(
        "main".to_string(),
        unique(vec![IRCode::Call("missing".to_string())]),
        true,
    )
    .unwrap();
    match run_ir(ir) {
        Err(e) => assert!(matches!(e, VMError::UnknownBlock(_))),
        Ok(_) => panic!("expected an unknown block error"),
    }
}

#[test]
fn division_by_zero_reported() {
    let mut ir = IR::new();
    ir.add_block(
        "main".to_string(),
        unique(vec![
            IRCode::PutValue(Value::Number(0)),
            IRCode::PutValue(Value::Number(5)),
            IRCode::Call("/".to_string()),
        ]),
        true,
    )
    .unwrap();
    match run_ir(ir) {
        Err(e) => assert_eq!(e, VMError::DivisionByZero),
        Ok(_) => panic!("expected a division error"),
    }
}
