//! The codec, the linker, the checker and the optimizer.
use enalang::blocks::Blocks;
use enalang::checker::{BlocksChecker, BlocksCheckerError};
use enalang::codec::{from_vec, SerializationError};
use enalang::ir::{Block, BlockRunType, IRCode, Position, IR};
use enalang::machine::{VMOptions, VM};
use enalang::native;
use enalang::optimizer::Optimizer;
use enalang::value::Value;

fn sample_ir() -> IR {
    let mut ir = IR::new();
    ir.add_block(
        "main".to_string(),
        Block {
            global: true,
            run_type: BlockRunType::Unique,
            code: vec![
                IRCode::PutValue(Value::Number(-7)),
                IRCode::PutValue(Value::String("hi".to_string())),
                IRCode::PutValue(Value::Boolean(true)),
                IRCode::PutValue(Value::Pointer(3)),
                IRCode::PutValue(Value::Block("main".to_string())),
                IRCode::PutValue(Value::Exception(Box::new(Value::Null))),
                IRCode::PutValue(Value::Atom("ok".to_string())),
                IRCode::LocalBlock(
                    "inner".to_string(),
                    BlockRunType::Once,
                    vec![IRCode::Return, IRCode::ReturnLocal],
                ),
                IRCode::While("w".to_string()),
                IRCode::If("i".to_string()),
                IRCode::Call("c".to_string()),
            ],
        },
        true,
    )
    .unwrap();
    ir.add_block(
        "helper".to_string(),
        Block { global: false, run_type: BlockRunType::Once, code: vec![] },
        true,
    )
    .unwrap();
    ir.annotations
        .insert("main".to_string(), "docs line\n@no-inline".to_string());
    ir.source_map.insert(
        "main".to_string(),
        Position { file: "lib.ena".to_string(), line: 3, col: 9 },
    );
    ir
}

#[test]
fn serialized_program_reads_back_equal() {
    let ir = sample_ir();
    let bytes = ir.into_vec();
    let rt = from_vec(&bytes).unwrap();
    // Same value: the reserialized bytes are identical.
    assert_eq!(rt.into_vec(), bytes);
    assert!(rt.get_block(&"main".to_string()).is_some());
    assert!(rt.get_block(&"helper".to_string()).is_some());
}

#[test]
fn empty_program_round_trips() {
    let ir = IR::new();
    let bytes = ir.into_vec();
    let rt = from_vec(&bytes).unwrap();
    assert_eq!(rt.into_vec(), bytes);
}

#[test]
fn garbage_is_not_a_document() {
    match from_vec(&vec![9u8, 9, 9]) {
        Err(e) => assert_eq!(e, SerializationError::ExpectedRoot),
        Ok(_) => panic!("expected a refusal"),
    }
    assert!(from_vec(&vec![]).is_err());
}

#[test]
fn truncated_document_is_refused() {
    let ir = sample_ir();
    let mut bytes = ir.into_vec();
    bytes.pop();
    assert!(from_vec(&bytes).is_err());
}

#[test]
fn merging_with_empty_keeps_the_original() {
    let mut ir = sample_ir();
    let before = ir.into_vec();
    ir.add(&IR::new()).unwrap();
    assert_eq!(ir.into_vec(), before);
}

#[test]
fn merging_disjoint_programs_unions_blocks() {
    let mut left = IR::new();
    left.add_block(
        "a".to_string(),
        Block { global: true, run_type: BlockRunType::Unique, code: vec![] },
        true,
    )
    .unwrap();
    let mut right = IR::new();
    right
        .add_block(
            "b".to_string(),
            Block { global: true, run_type: BlockRunType::Unique, code: vec![] },
            true,
        )
        .unwrap();
    left.add(&right).unwrap();
    assert!(left.get_block(&"a".to_string()).is_some());
    assert!(left.get_block(&"b".to_string()).is_some());
}

#[test]
fn merging_overlapping_programs_fails() {
    let mut left = IR::new();
    left.add_block(
        "a".to_string(),
        Block { global: true, run_type: BlockRunType::Unique, code: vec![] },
        true,
    )
    .unwrap();
    let mut right = IR::new();
    right
        .add_block(
            "a".to_string(),
            Block { global: true, run_type: BlockRunType::Once, code: vec![] },
            true,
        )
        .unwrap();
    assert!(left.add(&right).is_err());
}

#[test]
fn checker_accepts_resolving_names() {
    let mut ir = IR::new();
    ir.add_block(
        "main".to_string(),
        Block {
            global: true,
            run_type: BlockRunType::Unique,
            code: vec![
                IRCode::Call("drop".to_string()),
                IRCode::LocalBlock("loc".to_string(), BlockRunType::Unique, vec![]),
                IRCode::Call("loc".to_string()),
            ],
        },
        true,
    )
    .unwrap();
    let blocks = Blocks::new(native::group(), ir).unwrap();
    let errs = BlocksChecker::new().check(&blocks);
    assert!(errs.is_empty());
}

#[test]
fn checker_reports_dangling_name() {
    let mut ir = IR::new();
    ir.add_block(
        "main".to_string(),
        Block {
            global: true,
            run_type: BlockRunType::Unique,
            code: vec![IRCode::Call("missing".to_string())],
        },
        true,
    )
    .unwrap();
    let blocks = Blocks::new(native::group(), ir).unwrap();
    let errs = BlocksChecker::new().check(&blocks);
    assert_eq!(errs.len(), 1);
    assert!(matches!(errs[0], BlocksCheckerError::UnknownBlock(_, _)));
}

#[test]
fn checker_reports_shadowing_local() {
    let mut ir = IR::new();
    ir.add_block(
        "main".to_string(),
        Block {
            global: true,
            run_type: BlockRunType::Unique,
            code: vec![
                IRCode::LocalBlock("x".to_string(), BlockRunType::Unique, vec![]),
                IRCode::LocalBlock("x".to_string(), BlockRunType::Unique, vec![]),
            ],
        },
        true,
    )
    .unwrap();
    let blocks = Blocks::new(native::group(), ir).unwrap();
    let errs = BlocksChecker::new().check(&blocks);
    assert_eq!(errs.len(), 1);
    assert!(matches!(
        errs[0],
        BlocksCheckerError::CannotShadowBlocksInLocalScope(_, _)
    ));
}

#[test]
fn inline_directive_preserves_behaviour() {
    let mut ir = IR::new();
    ir.add_block(
        "main".to_string(),
        Block {
            global: true,
            run_type: BlockRunType::Unique,
            code: vec![
                IRCode::PutValue(Value::Number(5)),
                IRCode::Call("inc".to_string()),
            ],
        },
        true,
    )
    .unwrap();
    ir.add_block(
        "inc".to_string(),
        Block {
            global: true,
            run_type: BlockRunType::Unique,
            code: vec![
                IRCode::PutValue(Value::Number(1)),
                IRCode::Call("+".to_string()),
            ],
        },
        true,
    )
    .unwrap();
    ir.annotations
        .insert("inc".to_string(), "@unsafe(inline)".to_string());
    let optimized = Optimizer::new().optimize(&ir, &"main".to_string()).unwrap();
    // The call was spliced in place.
    let main = optimized.get_block(&"main".to_string()).unwrap();
    assert_eq!(main.code.len(), 3);
    assert!(matches!(main.code[1], IRCode::PutValue(Value::Number(1))));
    // Annotations survive the pass.
    assert!(optimized.annotations.get(&"inc".to_string()).is_some());
    // Running both programs leaves the same stack.
    let blocks_a = Blocks::new(native::group(), ir).unwrap();
    let blocks_b = Blocks::new(native::group(), optimized).unwrap();
    let mut vm_a = VM::new(VMOptions::new());
    vm_a.run(&"main".to_string(), blocks_a).unwrap();
    let mut vm_b = VM::new(VMOptions::new());
    vm_b.run(&"main".to_string(), blocks_b).unwrap();
    assert_eq!(vm_a.stack, vm_b.stack);
    assert_eq!(vm_a.stack, vec![Value::Number(6)]);
}

#[test]
fn once_blocks_are_not_inlined() {
    let mut ir = IR::new();
    ir.add_block(
        "main".to_string(),
        Block {
            global: true,
            run_type: BlockRunType::Unique,
            code: vec![IRCode::Call("k".to_string())],
        },
        true,
    )
    .unwrap();
    ir.add_block(
        "k".to_string(),
        Block {
            global: true,
            run_type: BlockRunType::Once,
            code: vec![IRCode::PutValue(Value::Number(7))],
        },
        true,
    )
    .unwrap();
    let optimized = Optimizer::new().optimize(&ir, &"main".to_string()).unwrap();
    let main = optimized.get_block(&"main".to_string()).unwrap();
    assert!(matches!(main.code[0], IRCode::Call(_)));
}

#[test]
fn no_inline_directive_wins() {
    let mut ir = IR::new();
    ir.add_block(
        "main".to_string(),
        Block {
            global: true,
            run_type: BlockRunType::Unique,
            code: vec![IRCode::Call("u".to_string())],
        },
        true,
    )
    .unwrap();
    ir.add_block(
        "u".to_string(),
        Block {
            global: true,
            run_type: BlockRunType::Unique,
            code: vec![IRCode::PutValue(Value::Number(7))],
        },
        true,
    )
    .unwrap();
    ir.annotations
        .insert("u".to_string(), "@no-inline".to_string());
    let optimized = Optimizer::new().optimize(&ir, &"main".to_string()).unwrap();
    let main = optimized.get_block(&"main".to_string()).unwrap();
    assert!(matches!(main.code[0], IRCode::Call(_)));
}

#[test]
fn plain_unique_blocks_are_inlined() {
    let mut ir = IR::new();
    ir.add_block(
        "main".to_string(),
        Block {
            global: true,
            run_type: BlockRunType::Unique,
            code: vec![IRCode::Call("u".to_string())],
        },
        true,
    )
    .unwrap();
    ir.add_block(
        "u".to_string(),
        Block {
            global: true,
            run_type: BlockRunType::Unique,
            code: vec![IRCode::PutValue(Value::Number(7))],
        },
        true,
    )
    .unwrap();
    let optimized = Optimizer::new().optimize(&ir, &"main".to_string()).unwrap();
    let main = optimized.get_block(&"main".to_string()).unwrap();
    assert!(matches!(main.code[0], IRCode::PutValue(Value::Number(7))));
}

#[test]
fn directive_lookup_matches_line_starts() {
    let mut ir = IR::new();
    ir.annotations.insert(
        "b".to_string(),
        "docs first\n@unsafe(inline) yes".to_string(),
    );
    assert!(ir.has_directive(&"b".to_string(), &"@unsafe(inline)".to_string()));
    assert!(!ir.has_directive(&"b".to_string(), &"@no-inline".to_string()));
    assert!(!ir.has_directive(&"missing".to_string(), &"@no-inline".to_string()));
}

#[test]
fn local_blocks_survive_the_optimizer() {
    let mut ir = IR::new();
    ir.add_block(
        "main".to_string(),
        Block {
            global: true,
            run_type: BlockRunType::Unique,
            code: vec![
                IRCode::LocalBlock(
                    "loc".to_string(),
                    BlockRunType::Unique,
                    vec![IRCode::PutValue(Value::Number(8))],
                ),
                IRCode::Call("loc".to_string()),
            ],
        },
        true,
    )
    .unwrap();
    let optimized = Optimizer::new().optimize(&ir, &"main".to_string()).unwrap();
    let main = optimized.get_block(&"main".to_string()).unwrap();
    assert_eq!(main.code.len(), 2);
    assert!(matches!(main.code[0], IRCode::LocalBlock(_, _, _)));
    // The rewritten program still runs the local block.
    let blocks = Blocks::new(native::group(), optimized).unwrap();
    let mut vm = VM::new(VMOptions::new());
    vm.run(&"main".to_string(), blocks).unwrap();
    assert_eq!(vm.stack, vec![Value::Number(8)]);
}
