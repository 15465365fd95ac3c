//! Tagging, untagging, raising and catching exception values.
use crate::machine::{natives_still, run_frame, vals_view, VMError, VM};
use crate::value::{Value, ValueView};
use vstd::prelude::*;

verus! {

/// The short text the machine gives a caught failure.
pub open spec fn error_text(e: VMError) -> Seq<char> {
    match e {
        VMError::UnknownBlock(_) => "unknown block"@,
        VMError::NoIR => "no ir"@,
        VMError::StackEnded => "stack ended"@,
        VMError::ExpectedBoolean => "expected boolean"@,
        VMError::ExpectedString => "expected string"@,
        VMError::ExpectedNumber => "expected number"@,
        VMError::ExpectedInteger => "expected integer"@,
        VMError::ExpectedBlock => "expected block"@,
        VMError::ExpectedPointer => "expected pointer"@,
        VMError::ExpectedValue => "expected value"@,
        VMError::ExpectedException => "expected exception"@,
        VMError::CannotShadowBlocksInLocalScope(_) => "cannot shadow block in local scope"@,
        VMError::SupervisorError(_) => "supervisor error"@,
        VMError::CannotCompare(_, _) => "cannot compare"@,
        VMError::CannotConvert(_) => "cannot convert"@,
        VMError::HeapError(_) => "heap error"@,
        VMError::BadPointer(_) => "bad pointer"@,
        VMError::RuntimeException(_) => "runtime exception"@,
        VMError::NoScope => "no scope"@,
        VMError::NoSingleEval => "no single eval"@,
        VMError::DivisionByZero => "division by zero"@,
        VMError::OutOfFuel => "out of fuel"@,
    }
}

/// The machine's one-line description of a failure.
pub fn describe_error(e: &VMError) -> (r: String)
    ensures
        r@ == error_text(*e),
{
    match e {
        VMError::UnknownBlock(_) => String::from_str("unknown block"),
        VMError::NoIR => String::from_str("no ir"),
        VMError::StackEnded => String::from_str("stack ended"),
        VMError::ExpectedBoolean => String::from_str("expected boolean"),
        VMError::ExpectedString => String::from_str("expected string"),
        VMError::ExpectedNumber => String::from_str("expected number"),
        VMError::ExpectedInteger => String::from_str("expected integer"),
        VMError::ExpectedBlock => String::from_str("expected block"),
        VMError::ExpectedPointer => String::from_str("expected pointer"),
        VMError::ExpectedValue => String::from_str("expected value"),
        VMError::ExpectedException => String::from_str("expected exception"),
        VMError::CannotShadowBlocksInLocalScope(_) => String::from_str(
            "cannot shadow block in local scope",
        ),
        VMError::SupervisorError(_) => String::from_str("supervisor error"),
        VMError::CannotCompare(_, _) => String::from_str("cannot compare"),
        VMError::CannotConvert(_) => String::from_str("cannot convert"),
        VMError::HeapError(_) => String::from_str("heap error"),
        VMError::BadPointer(_) => String::from_str("bad pointer"),
        VMError::RuntimeException(_) => String::from_str("runtime exception"),
        VMError::NoScope => String::from_str("no scope"),
        VMError::NoSingleEval => String::from_str("no single eval"),
        VMError::DivisionByZero => String::from_str("division by zero"),
        VMError::OutOfFuel => String::from_str("out of fuel"),
    }
}

/// Wraps the top value as an exception.
pub fn into_exception(vm: &mut VM) -> (r: Result<(), VMError>)
    requires
        old(vm).wf(),
    ensures
        natives_still(*old(vm), *final(vm)),
        old(vm).stack@.len() == 0 ==> r == Result::<(), VMError>::Err(VMError::StackEnded),
        old(vm).stack@.len() > 0 && !(old(vm).stack@.last()@ is Pointer) ==> r is Ok && final(vm).heap == old(vm).heap && final(vm).stack_view() == vals_view(
            old(vm).stack@.drop_last(),
        ).push(ValueView::Exception(Box::new(old(vm).stack@.last()@))),
{
    let v = match vm.pop() {
        Ok(v) => v,
        Err(e) => {
            return Err(e);
        },
    };
    let out = vm.push(Value::Exception(Box::new(v)));
    proof {
        if old(vm).stack@.len() > 0 {
            assert(final(vm).stack_view() =~= vals_view(old(vm).stack@.drop_last()).push(
                ValueView::Exception(Box::new(old(vm).stack@.last()@)),
            ));
        }
    }
    out
}

/// Takes the payload out of the top exception.
pub fn unwrap_exception(vm: &mut VM) -> (r: Result<(), VMError>)
    requires
        old(vm).wf(),
    ensures
        natives_still(*old(vm), *final(vm)),
        old(vm).stack@.len() == 0 ==> r == Result::<(), VMError>::Err(VMError::StackEnded),
        old(vm).stack@.len() > 0 ==> match old(vm).stack@.last()@ {
            ValueView::Exception(inner) => (r is Ok ==> final(vm).stack_view() == vals_view(
                old(vm).stack@.drop_last(),
            ).push(*inner)) && (!(*inner is Pointer) ==> r is Ok && final(vm).heap == old(
                vm,
            ).heap),
            _ => !(old(vm).stack@.last()@ is Pointer) ==> r == Result::<(), VMError>::Err(
                VMError::ExpectedException,
            ),
        },
{
    let v = match vm.pop() {
        Ok(v) => v,
        Err(e) => {
            return Err(e);
        },
    };
    match v {
        Value::Exception(inner) => {
            let out = vm.push(*inner);
            proof {
                if old(vm).stack@.len() > 0 {
                    assert(final(vm).stack_view() =~= vals_view(old(vm).stack@.drop_last()).push(
                        *(old(vm).stack@.last()@->Exception_0),
                    ));
                }
            }
            out
        },
        _ => Err(VMError::ExpectedException),
    }
}

/// Raises the top exception as a runtime failure.
pub fn throw_exception(vm: &mut VM) -> (r: Result<(), VMError>)
    requires
        old(vm).wf(),
    ensures
        natives_still(*old(vm), *final(vm)),
        old(vm).stack@.len() == 0 ==> r == Result::<(), VMError>::Err(VMError::StackEnded),
        r is Err,
        old(vm).stack@.len() > 0 ==> final(vm).stack@ == old(vm).stack@.drop_last(),
        old(vm).stack@.len() > 0 ==> match old(vm).stack@.last()@ {
            ValueView::Exception(inner) => final(vm).heap == old(vm).heap && (r matches Err(e)
                && (e matches VMError::RuntimeException(p) && p@ == *inner)),
            _ => !(old(vm).stack@.last()@ is Pointer) ==> r == Result::<(), VMError>::Err(
                VMError::ExpectedException,
            ) && final(vm).heap == old(vm).heap,
        },
{
    let v = match vm.pop() {
        Ok(v) => v,
        Err(e) => {
            return Err(e);
        },
    };
    match v {
        Value::Exception(inner) => Err(VMError::RuntimeException(*inner)),
        _ => Err(VMError::ExpectedException),
    }
}

/// Pushes whether the top value is an exception.
pub fn is_exception(vm: &mut VM) -> (r: Result<(), VMError>)
    requires
        old(vm).wf(),
    ensures
        natives_still(*old(vm), *final(vm)),
        old(vm).stack@.len() == 0 ==> r == Result::<(), VMError>::Err(VMError::StackEnded),
        old(vm).stack@.len() > 0 && !(old(vm).stack@.last()@ is Pointer) ==> r is Ok && final(vm).heap == old(vm).heap && final(vm).stack_view() == vals_view(
            old(vm).stack@.drop_last(),
        ).push(ValueView::Boolean(old(vm).stack@.last()@ is Exception)),
{
    let v = match vm.pop() {
        Ok(v) => v,
        Err(e) => {
            return Err(e);
        },
    };
    let is_exc = matches!(v, Value::Exception(_));
    let out = vm.push(Value::Boolean(is_exc));
    proof {
        if old(vm).stack@.len() > 0 {
            assert(final(vm).stack_view() =~= vals_view(old(vm).stack@.drop_last()).push(
                ValueView::Boolean(old(vm).stack@.last()@ is Exception),
            ));
        }
    }
    out
}

/// Pops a block value and runs it; a failure of the run is caught and
/// left on the stack as an exception wrapping its description.
pub fn try_exception(vm: &mut VM, fuel: u64) -> (r: Result<(), VMError>)
    requires
        old(vm).wf(),
        old(vm).scope_manager.scopes@.len() >= 1,
    ensures
        run_frame(*old(vm), *final(vm)),
        old(vm).stack@.len() == 0 ==> r == Result::<(), VMError>::Err(VMError::StackEnded),
        old(vm).stack@.len() > 0 && !(old(vm).stack@.last()@ is Block) && !(old(
            vm,
        ).stack@.last()@ is Pointer) ==> r == Result::<(), VMError>::Err(VMError::ExpectedBlock)
            && final(vm).stack@ == old(vm).stack@.drop_last() && final(vm).heap == old(vm).heap,
        old(vm).stack@.len() > 0 && old(vm).stack@.last()@ is Block && fuel == 0 ==> r == Result::<
            (),
            VMError,
        >::Err(VMError::OutOfFuel),
    decreases fuel, 0int,
{
    let v = match vm.pop() {
        Ok(v) => v,
        Err(e) => {
            return Err(e);
        },
    };
    let name = match v {
        Value::Block(n) => n,
        _ => {
            return Err(VMError::ExpectedBlock);
        },
    };
    if fuel == 0 {
        return Err(VMError::OutOfFuel);
    }
    match vm.run_block(&name, (fuel - 1) as u64) {
        Ok(_) => Ok(()),
        Err(err) => {
            let text = describe_error(&err);
            vm.push(Value::Exception(Box::new(Value::String(text))))
        },
    }
}

} // verus!
