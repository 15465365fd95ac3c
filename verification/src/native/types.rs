//! Type predicates and value conversions.
use crate::machine::{natives_still, vals_view, VMError, VM};
use crate::value::{Value, ValueView};
use vstd::prelude::*;

verus! {

/// Pops a value and pushes it read as a number: booleans count as one
/// and zero, the null value as minus one, a pointer as its address;
/// text and the rest are refused.
pub fn into_number(vm: &mut VM) -> (r: Result<(), VMError>)
    requires
        old(vm).wf(),
    ensures
        natives_still(*old(vm), *final(vm)),
        old(vm).stack@.len() == 0 ==> r == Result::<(), VMError>::Err(VMError::StackEnded),
        old(vm).stack@.len() > 0 ==> match old(vm).stack@.last()@ {
            ValueView::Number(n) => r is Ok && final(vm).heap == old(vm).heap && final(vm).stack_view() == vals_view(old(vm).stack@.drop_last()).push(ValueView::Number(n)),
            ValueView::Boolean(b) => r is Ok && final(vm).heap == old(vm).heap && final(vm).stack_view() == vals_view(old(vm).stack@.drop_last()).push(
                ValueView::Number(
                    if b {
                        1i64
                    } else {
                        0i64
                    },
                ),
            ),
            ValueView::Null => r is Ok && final(vm).heap == old(vm).heap && final(vm).stack_view()
                == vals_view(old(vm).stack@.drop_last()).push(ValueView::Number(-1i64)),
            ValueView::Pointer(p) => (p <= i64::MAX ==> (r is Ok ==> final(vm).stack_view()
                == vals_view(old(vm).stack@.drop_last()).push(ValueView::Number(p as i64)))) && (p
                > i64::MAX ==> (r matches Err(e) && (e is CannotConvert || e is HeapError))),
            _ => r matches Err(e) && e is CannotConvert,
        },
{
    let v = match vm.pop() {
        Ok(v) => v,
        Err(e) => {
            return Err(e);
        },
    };
    let n: i64 = match v {
        Value::Number(n) => n,
        Value::Boolean(true) => 1,
        Value::Boolean(false) => 0,
        Value::Null => -1,
        Value::Pointer(p) => {
            if p as u64 > i64::MAX as u64 {
                return Err(VMError::CannotConvert(Value::Pointer(p)));
            }
            p as i64
        },
        other => {
            return Err(VMError::CannotConvert(other));
        },
    };
    let out = vm.push(Value::Number(n));
    proof {
        if old(vm).stack@.len() > 0 {
            assert(final(vm).stack_view() =~= vals_view(old(vm).stack@.drop_last()).push(
                ValueView::Number(n),
            ));
        }
    }
    out
}

/// Pops a nonnegative number and pushes it as a bare pointer.
pub fn into_ptr(vm: &mut VM) -> (r: Result<(), VMError>)
    requires
        old(vm).wf(),
    ensures
        natives_still(*old(vm), *final(vm)),
        old(vm).stack@.len() == 0 ==> r == Result::<(), VMError>::Err(VMError::StackEnded),
        old(vm).stack@.len() > 0 ==> match old(vm).stack@.last()@ {
            ValueView::Number(n) => final(vm).heap == old(vm).heap && (if 0 <= n <= usize::MAX {
                r is Ok && final(vm).stack_view() == vals_view(old(vm).stack@.drop_last()).push(
                    ValueView::Pointer(n as usize),
                )
            } else {
                r matches Err(e) && e is BadPointer
            }),
            _ => !(old(vm).stack@.last()@ is Pointer) ==> r == Result::<(), VMError>::Err(
                VMError::ExpectedNumber,
            ),
        },
{
    let v = match vm.pop() {
        Ok(v) => v,
        Err(e) => {
            return Err(e);
        },
    };
    match v {
        Value::Number(n) => {
            if n < 0 {
                return Err(VMError::BadPointer(0));
            }
            let u = n as u64;
            if u > usize::MAX as u64 {
                return Err(VMError::BadPointer(usize::MAX));
            }
            let p = u as usize;
            let out = vm.stack.push(Value::Pointer(p));
            proof {
                assert(final(vm).stack_view() =~= vals_view(old(vm).stack@.drop_last()).push(
                    ValueView::Pointer(p),
                ));
            }
            Ok(())
        },
        _ => Err(VMError::ExpectedNumber),
    }
}

/// Pops a value and pushes whether it was a pointer.
pub fn is_pointer(vm: &mut VM) -> (r: Result<(), VMError>)
    requires
        old(vm).wf(),
    ensures
        natives_still(*old(vm), *final(vm)),
        old(vm).stack@.len() == 0 ==> r == Result::<(), VMError>::Err(VMError::StackEnded),
        old(vm).stack@.len() > 0 && !(old(vm).stack@.last()@ is Pointer) ==> r is Ok && final(vm).heap == old(vm).heap && final(vm).stack_view() == vals_view(
            old(vm).stack@.drop_last(),
        ).push(ValueView::Boolean(old(vm).stack@.last()@ is Pointer)),
{
    let v = match vm.pop() {
        Ok(v) => v,
        Err(e) => {
            return Err(e);
        },
    };
    let b = matches!(v, Value::Pointer(_));
    let out = vm.push(Value::Boolean(b));
    proof {
        if old(vm).stack@.len() > 0 {
            assert(final(vm).stack_view() =~= vals_view(old(vm).stack@.drop_last()).push(
                ValueView::Boolean(old(vm).stack@.last()@ is Pointer),
            ));
        }
    }
    out
}

/// Pops a value and pushes whether it was a number.
pub fn is_number(vm: &mut VM) -> (r: Result<(), VMError>)
    requires
        old(vm).wf(),
    ensures
        natives_still(*old(vm), *final(vm)),
        old(vm).stack@.len() == 0 ==> r == Result::<(), VMError>::Err(VMError::StackEnded),
        old(vm).stack@.len() > 0 && !(old(vm).stack@.last()@ is Pointer) ==> r is Ok && final(vm).heap == old(vm).heap && final(vm).stack_view() == vals_view(
            old(vm).stack@.drop_last(),
        ).push(ValueView::Boolean(old(vm).stack@.last()@ is Number)),
{
    let v = match vm.pop() {
        Ok(v) => v,
        Err(e) => {
            return Err(e);
        },
    };
    let b = matches!(v, Value::Number(_));
    let out = vm.push(Value::Boolean(b));
    proof {
        if old(vm).stack@.len() > 0 {
            assert(final(vm).stack_view() =~= vals_view(old(vm).stack@.drop_last()).push(
                ValueView::Boolean(old(vm).stack@.last()@ is Number),
            ));
        }
    }
    out
}

/// Pops a value and pushes whether it was a block name.
pub fn is_block(vm: &mut VM) -> (r: Result<(), VMError>)
    requires
        old(vm).wf(),
    ensures
        natives_still(*old(vm), *final(vm)),
        old(vm).stack@.len() == 0 ==> r == Result::<(), VMError>::Err(VMError::StackEnded),
        old(vm).stack@.len() > 0 && !(old(vm).stack@.last()@ is Pointer) ==> r is Ok && final(vm).heap == old(vm).heap && final(vm).stack_view() == vals_view(
            old(vm).stack@.drop_last(),
        ).push(ValueView::Boolean(old(vm).stack@.last()@ is Block)),
{
    let v = match vm.pop() {
        Ok(v) => v,
        Err(e) => {
            return Err(e);
        },
    };
    let b = matches!(v, Value::Block(_));
    let out = vm.push(Value::Boolean(b));
    proof {
        if old(vm).stack@.len() > 0 {
            assert(final(vm).stack_view() =~= vals_view(old(vm).stack@.drop_last()).push(
                ValueView::Boolean(old(vm).stack@.last()@ is Block),
            ));
        }
    }
    out
}

/// Pops a value and pushes whether it was a boolean.
pub fn is_bool(vm: &mut VM) -> (r: Result<(), VMError>)
    requires
        old(vm).wf(),
    ensures
        natives_still(*old(vm), *final(vm)),
        old(vm).stack@.len() == 0 ==> r == Result::<(), VMError>::Err(VMError::StackEnded),
        old(vm).stack@.len() > 0 && !(old(vm).stack@.last()@ is Pointer) ==> r is Ok && final(vm).heap == old(vm).heap && final(vm).stack_view() == vals_view(
            old(vm).stack@.drop_last(),
        ).push(ValueView::Boolean(old(vm).stack@.last()@ is Boolean)),
{
    let v = match vm.pop() {
        Ok(v) => v,
        Err(e) => {
            return Err(e);
        },
    };
    let b = matches!(v, Value::Boolean(_));
    let out = vm.push(Value::Boolean(b));
    proof {
        if old(vm).stack@.len() > 0 {
            assert(final(vm).stack_view() =~= vals_view(old(vm).stack@.drop_last()).push(
                ValueView::Boolean(old(vm).stack@.last()@ is Boolean),
            ));
        }
    }
    out
}

/// Pops a value and pushes whether it was text.
pub fn is_string(vm: &mut VM) -> (r: Result<(), VMError>)
    requires
        old(vm).wf(),
    ensures
        natives_still(*old(vm), *final(vm)),
        old(vm).stack@.len() == 0 ==> r == Result::<(), VMError>::Err(VMError::StackEnded),
        old(vm).stack@.len() > 0 && !(old(vm).stack@.last()@ is Pointer) ==> r is Ok && final(vm).heap == old(vm).heap && final(vm).stack_view() == vals_view(
            old(vm).stack@.drop_last(),
        ).push(ValueView::Boolean(old(vm).stack@.last()@ is Str)),
{
    let v = match vm.pop() {
        Ok(v) => v,
        Err(e) => {
            return Err(e);
        },
    };
    let b = matches!(v, Value::String(_));
    let out = vm.push(Value::Boolean(b));
    proof {
        if old(vm).stack@.len() > 0 {
            assert(final(vm).stack_view() =~= vals_view(old(vm).stack@.drop_last()).push(
                ValueView::Boolean(old(vm).stack@.last()@ is Str),
            ));
        }
    }
    out
}

/// Pops a value and pushes whether it was the null value.
pub fn is_null(vm: &mut VM) -> (r: Result<(), VMError>)
    requires
        old(vm).wf(),
    ensures
        natives_still(*old(vm), *final(vm)),
        old(vm).stack@.len() == 0 ==> r == Result::<(), VMError>::Err(VMError::StackEnded),
        old(vm).stack@.len() > 0 && !(old(vm).stack@.last()@ is Pointer) ==> r is Ok && final(vm).heap == old(vm).heap && final(vm).stack_view() == vals_view(
            old(vm).stack@.drop_last(),
        ).push(ValueView::Boolean(old(vm).stack@.last()@ is Null)),
{
    let v = match vm.pop() {
        Ok(v) => v,
        Err(e) => {
            return Err(e);
        },
    };
    let b = matches!(v, Value::Null);
    let out = vm.push(Value::Boolean(b));
    proof {
        if old(vm).stack@.len() > 0 {
            assert(final(vm).stack_view() =~= vals_view(old(vm).stack@.drop_last()).push(
                ValueView::Boolean(old(vm).stack@.last()@ is Null),
            ));
        }
    }
    out
}

/// Pops a value and pushes its one-line text form.
pub fn into_string(vm: &mut VM) -> (r: Result<(), VMError>)
    requires
        old(vm).wf(),
    ensures
        natives_still(*old(vm), *final(vm)),
        old(vm).stack@.len() == 0 ==> r == Result::<(), VMError>::Err(VMError::StackEnded),
        old(vm).stack@.len() > 0 && !(old(vm).stack@.last()@ is Pointer) ==> r is Ok && final(vm).heap == old(vm).heap && final(vm).stack_view() == vals_view(
            old(vm).stack@.drop_last(),
        ).push(ValueView::Str(crate::fmt::display_of(old(vm).stack@.last()@))),
{
    let v = match vm.pop() {
        Ok(v) => v,
        Err(e) => {
            return Err(e);
        },
    };
    let s = crate::fmt::display_value(&v);
    let out = vm.push(Value::String(s));
    proof {
        if old(vm).stack@.len() > 0 {
            assert(final(vm).stack_view() =~= vals_view(old(vm).stack@.drop_last()).push(
                ValueView::Str(crate::fmt::display_of(old(vm).stack@.last()@)),
            ));
        }
    }
    out
}

} // verus!
