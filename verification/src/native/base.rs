//! Stack manipulation, arithmetic, comparison, logic and heap natives.
use crate::machine::{heap_result_into_vm, natives_still, run_frame, vals_view, VMError, VM};
use crate::value::{value_eq, Value, ValueView};
use vstd::prelude::*;

verus! {

/// The wrapped 64-bit sum.
pub open spec fn wrap_add(x: i64, y: i64) -> i64 {
    vstd::wrapping::i64_specs::wrapping_add(x, y)
}

/// The wrapped 64-bit difference.
pub open spec fn wrap_sub(x: i64, y: i64) -> i64 {
    vstd::wrapping::i64_specs::wrapping_sub(x, y)
}

/// The wrapped 64-bit product.
pub open spec fn wrap_mul(x: i64, y: i64) -> i64 {
    vstd::wrapping::i64_specs::wrapping_mul(x, y)
}

/// Division rounded toward zero, with the one wrapped quotient.
pub open spec fn div_wrap(a: i64, b: i64) -> i64
    recommends
        b != 0,
{
    let ua = if a < 0 {
        -(a as int)
    } else {
        a as int
    };
    let ub = if b < 0 {
        -(b as int)
    } else {
        b as int
    };
    let q = ua / ub;
    if (a < 0) != (b < 0) {
        if q > i64::MAX {
            i64::MIN
        } else {
            (-q) as i64
        }
    } else {
        if q > i64::MAX {
            i64::MIN
        } else {
            q as i64
        }
    }
}

/// The wrapped 64-bit product folded over an exponent.
pub open spec fn pow_wrap(a: i64, b: nat) -> i64
    decreases b,
{
    if b == 0 {
        1
    } else {
        wrap_mul(pow_wrap(a, (b - 1) as nat), a)
    }
}

/// Integer exponentiation.
pub open spec fn pow_int(a: int, b: nat) -> int
    decreases b,
{
    if b == 0 {
        1
    } else {
        a * pow_int(a, (b - 1) as nat)
    }
}

/// A nonnegative base gives a nonnegative power.
pub proof fn lemma_pow_nonneg(a: int, b: nat)
    requires
        a >= 0,
    ensures
        pow_int(a, b) >= 0,
    decreases b,
{
    if b > 0 {
        lemma_pow_nonneg(a, (b - 1) as nat);
        assert(a * pow_int(a, (b - 1) as nat) >= 0) by (nonlinear_arith)
            requires
                a >= 0,
                pow_int(a, (b - 1) as nat) >= 0,
        ;
    }
}

/// `a` to the power `b`, or nothing when the value leaves 64 bits.
fn ipow_checked(a: i64, b: u64) -> (r: Option<i64>)
    requires
        a >= 0,
    ensures
        match r {
            Some(p) => p == pow_int(a as int, b as nat) && p >= 0,
            None => pow_int(a as int, b as nat) > i64::MAX,
        },
{
    let mut acc: i64 = 1;
    let mut j: u64 = 0;
    while j < b
        invariant
            a >= 0,
            j <= b,
            acc >= 0,
            acc == pow_int(a as int, j as nat),
        decreases b - j,
    {
        proof {
            lemma_pow_nonneg(a as int, j as nat + 1);
            assert(pow_int(a as int, j as nat + 1) == a * pow_int(a as int, j as nat));
        }
        acc = match acc.checked_mul(a) {
            Some(v) => v,
            None => {
                proof {
                    lemma_pow_monotone(a as int, j as nat + 1, b as nat);
                }
                return None;
            },
        };
        proof {
            assert(acc == a * pow_int(a as int, j as nat)) by (nonlinear_arith)
                requires
                    acc == pow_int(a as int, j as nat + 1) - (pow_int(a as int, j as nat + 1) - a
                        * pow_int(a as int, j as nat)),
                    pow_int(a as int, j as nat + 1) == a * pow_int(a as int, j as nat),
            ;
        }
        j = j + 1;
    }
    Some(acc)
}

/// A nonnegative power only grows with the exponent once past one step
/// over the 64-bit range.
pub proof fn lemma_pow_monotone(a: int, b1: nat, b2: nat)
    requires
        a >= 0,
        b1 <= b2,
        pow_int(a, b1) > i64::MAX,
    ensures
        pow_int(a, b2) > i64::MAX,
    decreases b2,
{
    if b2 > b1 {
        lemma_pow_monotone(a, b1, (b2 - 1) as nat);
        lemma_pow_nonneg(a, (b2 - 1) as nat);
        if a == 0 {
            assert(pow_int(a, b1) <= i64::MAX) by {
                lemma_pow_zero_base(b1);
            }
        } else {
            assert(a * pow_int(a, (b2 - 1) as nat) >= pow_int(a, (b2 - 1) as nat))
                by (nonlinear_arith)
                requires
                    a >= 1,
                    pow_int(a, (b2 - 1) as nat) >= 0,
            ;
        }
    }
}

/// Zero to any power is zero or one.
pub proof fn lemma_pow_zero_base(b: nat)
    ensures
        pow_int(0, b) <= 1,
    decreases b,
{
    if b > 0 {
        lemma_pow_zero_base((b - 1) as nat);
    }
}

/// Pops nothing and does nothing.
pub fn nop(vm: &mut VM) -> (r: Result<(), VMError>)
    requires
        old(vm).wf(),
    ensures
        natives_still(*old(vm), *final(vm)),
        *final(vm) == *old(vm),
        r is Ok,
{
    Ok(())
}

/// Present for parity with the group's conversion helpers; does nothing.
pub fn into_base(vm: &mut VM) -> (r: Result<(), VMError>)
    requires
        old(vm).wf(),
    ensures
        natives_still(*old(vm), *final(vm)),
        *final(vm) == *old(vm),
        r is Ok,
{
    Ok(())
}

/// Pops and discards the top value.
pub fn drop_value(vm: &mut VM) -> (r: Result<(), VMError>)
    requires
        old(vm).wf(),
    ensures
        natives_still(*old(vm), *final(vm)),
        old(vm).stack@.len() == 0 ==> r == Result::<(), VMError>::Err(VMError::StackEnded),
        old(vm).stack@.len() == 0 ==> final(vm).stack@ == old(vm).stack@ && final(vm).heap == old(vm).heap,
        old(vm).stack@.len() > 0 ==> final(vm).stack@ == old(vm).stack@.drop_last() && (!(old(vm).stack@.last()@ is Pointer) ==> r is Ok && final(vm).heap == old(vm).heap),
{
    match vm.pop() {
        Ok(_) => Ok(()),
        Err(e) => Err(e),
    }
}

/// Pushes a copy of the top value.
pub fn dup(vm: &mut VM) -> (r: Result<(), VMError>)
    requires
        old(vm).wf(),
    ensures
        natives_still(*old(vm), *final(vm)),
        old(vm).stack@.len() == 0 ==> r == Result::<(), VMError>::Err(VMError::StackEnded),
        old(vm).stack@.len() == 0 ==> *final(vm) == *old(vm),
        old(vm).stack@.len() > 0 ==> {
            &&& final(vm).stack_view() == old(vm).stack_view().push(old(vm).stack@.last()@)
            &&& (!(old(vm).stack@.last()@ is Pointer) ==> r is Ok && final(vm).heap == old(vm).heap)
        },
{
    let n = vm.stack.len();
    if n == 0 {
        return Err(VMError::StackEnded);
    }
    let v = vm.stack[n - 1].clone();
    vm.push(v)
}

/// Swaps the top two values; one lone value is dropped bare, an empty
/// stack is left alone.
pub fn swap(vm: &mut VM) -> (r: Result<(), VMError>)
    requires
        old(vm).wf(),
    ensures
        natives_still(*old(vm), *final(vm)),
        r is Ok,
        final(vm).heap == old(vm).heap,
        old(vm).stack@.len() >= 2 ==> final(vm).stack@ == old(vm).stack@.drop_last().drop_last().push(
            old(vm).stack@.last(),
        ).push(old(vm).stack@[old(vm).stack@.len() - 2]),
        old(vm).stack@.len() == 1 ==> final(vm).stack@ =~= Seq::<Value>::empty(),
        old(vm).stack@.len() == 0 ==> final(vm).stack@ == old(vm).stack@,
{
    let one = vm.stack.pop();
    let two = vm.stack.pop();
    if let Some(a) = one {
        if let Some(b) = two {
            vm.stack.push(a);
            vm.stack.push(b);
            proof {
                assert(vm.stack@ =~= old(vm).stack@.drop_last().drop_last().push(
                    old(vm).stack@.last(),
                ).push(old(vm).stack@[old(vm).stack@.len() - 2]));
            }
        }
    }
    Ok(())
}

/// Pops a count `k` and pushes a copy of the element `k` below the top.
pub fn peek_value_at(vm: &mut VM) -> (r: Result<(), VMError>)
    requires
        old(vm).wf(),
    ensures
        natives_still(*old(vm), *final(vm)),
        old(vm).stack@.len() == 0 ==> r == Result::<(), VMError>::Err(VMError::StackEnded),
        old(vm).stack@.len() > 0 ==> (old(vm).stack@.last()@ matches ValueView::Number(n) ==> 0
            <= n ==> {
            let rest = old(vm).stack@.drop_last();
            &&& (n <= usize::MAX && n < rest.len() && !(rest[rest.len() - 1 - n]@ is Pointer)
                ==> r is Ok && final(vm).heap == old(vm).heap && final(vm).stack_view()
                == vals_view(rest).push(rest[rest.len() - 1 - n]@))
            &&& (n <= usize::MAX && n >= rest.len() ==> r == Result::<(), VMError>::Err(
                VMError::StackEnded,
            ) && final(vm).stack@ == rest)
        }),
    {
    let num = match vm.pop_pointer() {
        Ok(v) => v,
        Err(e) => {
            return Err(e);
        },
    };
    let n = vm.stack.len();
    if num >= n {
        return Err(VMError::StackEnded);
    }
    let v = vm.stack[n - 1 - num].clone();
    let ghost vv = v@;
    let out = vm.push(v);
    proof {
        assert(vm.stack_view() =~= vals_view(old(vm).stack@.drop_last()).push(vv));
    }
    out
}

/// Pops a count `k` and removes the element `k` below the top.
pub fn drop_value_at(vm: &mut VM) -> (r: Result<(), VMError>)
    requires
        old(vm).wf(),
    ensures
        natives_still(*old(vm), *final(vm)),
        old(vm).stack@.len() == 0 ==> r == Result::<(), VMError>::Err(VMError::StackEnded),
        old(vm).stack@.len() > 0 ==> (old(vm).stack@.last()@ matches ValueView::Number(n) ==> 0
            <= n ==> {
            let rest = old(vm).stack@.drop_last();
            &&& (n <= usize::MAX && n < rest.len() && !(rest[rest.len() - 1 - n]@ is Pointer)
                ==> r is Ok && final(vm).heap == old(vm).heap && final(vm).stack@ == rest.remove(
                rest.len() - 1 - n,
            ))
            &&& (n <= usize::MAX && n >= rest.len() ==> r == Result::<(), VMError>::Err(
                VMError::StackEnded,
            ) && final(vm).stack@ == rest)
        }),
{
    let num = match vm.pop_pointer() {
        Ok(v) => v,
        Err(e) => {
            return Err(e);
        },
    };
    let n = vm.stack.len();
    if num >= n {
        return Err(VMError::StackEnded);
    }
    let val = vm.stack.remove(n - 1 - num);
    proof {
        assert(vm.stack@ =~= old(vm).stack@.drop_last().remove(
            old(vm).stack@.drop_last().len() - 1 - num,
        ));
    }
    vm.handle_minus(val)
}

/// Empties the stack, giving back one count per pointer held.
pub fn clear_stack(vm: &mut VM) -> (r: Result<(), VMError>)
    requires
        old(vm).wf(),
    ensures
        natives_still(*old(vm), *final(vm)),
        r is Ok ==> final(vm).stack@ =~= Seq::<Value>::empty(),
        !old(vm).heap.spec_gc() ==> r is Ok && final(vm).heap == old(vm).heap,
{
    loop
        invariant
            vm.wf(),
            natives_still(*old(vm), *vm),
            !old(vm).heap.spec_gc() ==> vm.heap == old(vm).heap,
        decreases vm.stack@.len(),
    {
        let v = match vm.stack.pop() {
            Some(v) => v,
            None => {
                return Ok(());
            },
        };
        match vm.handle_minus(v) {
            Ok(()) => {},
            Err(e) => {
                return Err(e);
            },
        }
    }
}

/// Adds the top two numbers (wrapping), or offsets a pointer by a
/// number; offsets past the address space are refused.
pub fn plus(vm: &mut VM) -> (r: Result<(), VMError>)
    requires
        old(vm).wf(),
    ensures
        natives_still(*old(vm), *final(vm)),
        old(vm).stack@.len() == 0 ==> r == Result::<(), VMError>::Err(VMError::StackEnded),
        old(vm).stack@.len() >= 2 ==> {
            let a = old(vm).stack@.last()@;
            let b = old(vm).stack@[old(vm).stack@.len() - 2]@;
            let base = vals_view(old(vm).stack@.drop_last().drop_last());
            match (a, b) {
                (ValueView::Number(x), ValueView::Number(y)) => r is Ok && final(vm).stack_view()
                    == base.push(ValueView::Number(wrap_add(x, y))) && final(vm).heap == old(vm).heap,
                (ValueView::Pointer(pa), ValueView::Number(nb)) => !old(vm).heap.spec_gc()
                    ==> (0 <= nb <= usize::MAX && pa + nb <= usize::MAX ==> r is Ok && final(vm).stack_view() == base.push(ValueView::Pointer((pa + nb) as usize))
                    && final(vm).heap.spec_slots() == old(vm).heap.spec_slots()
                    && final(vm).heap.spec_blocks() == old(vm).heap.spec_blocks()
                    && final(vm).heap.spec_rc() == old(vm).heap.spec_rc()),
                (ValueView::Number(nb), ValueView::Pointer(pa)) => !old(vm).heap.spec_gc()
                    ==> (0 <= nb <= usize::MAX && nb + pa <= usize::MAX ==> r is Ok && final(vm).stack_view() == base.push(ValueView::Pointer((nb + pa) as usize))
                    && final(vm).heap.spec_slots() == old(vm).heap.spec_slots()
                    && final(vm).heap.spec_blocks() == old(vm).heap.spec_blocks()
                    && final(vm).heap.spec_rc() == old(vm).heap.spec_rc()),
                _ => (!(a is Pointer) && !(b is Pointer)) ==> r == Result::<(), VMError>::Err(
                    VMError::ExpectedNumber,
                ) && final(vm).stack@ == old(vm).stack@.drop_last().drop_last() && final(vm).heap
                    == old(vm).heap,
            }
        },
{
    let va = match vm.pop() {
        Ok(v) => v,
        Err(e) => {
            return Err(e);
        },
    };
    let vb = match vm.pop() {
        Ok(v) => v,
        Err(e) => {
            return Err(e);
        },
    };
    match (va, vb) {
        (Value::Number(x), Value::Number(y)) => {
            let out = vm.push(Value::Number(x.wrapping_add(y)));
            proof {
                assert(final(vm).stack_view() =~= vals_view(
                    old(vm).stack@.drop_last().drop_last(),
                ).push(ValueView::Number(wrap_add(x, y))));
            }
            out
        },
        (Value::Pointer(p), Value::Number(y)) => {
            let off = number_as_offset(y)?;
            match p.checked_add(off) {
                Some(np) => vm.push(Value::Pointer(np)),
                None => Err(VMError::BadPointer(p)),
            }
        },
        (Value::Number(y), Value::Pointer(p)) => {
            let off = number_as_offset(y)?;
            match off.checked_add(p) {
                Some(np) => vm.push(Value::Pointer(np)),
                None => Err(VMError::BadPointer(p)),
            }
        },
        _ => Err(VMError::ExpectedNumber),
    }
}

/// A number read as a machine offset.
fn number_as_offset(y: i64) -> (r: Result<usize, VMError>)
    ensures
        match r {
            Ok(v) => 0 <= y <= usize::MAX && v == y as usize,
            Err(_) => !(0 <= y <= usize::MAX),
        },
{
    if y < 0 {
        return Err(VMError::ExpectedNumber);
    }
    let u = y as u64;
    if u > usize::MAX as u64 {
        return Err(VMError::ExpectedNumber);
    }
    Ok(u as usize)
}

/// Subtracts the second number from the top one (wrapping), or moves a
/// pointer back by a number.
pub fn subst(vm: &mut VM) -> (r: Result<(), VMError>)
    requires
        old(vm).wf(),
    ensures
        natives_still(*old(vm), *final(vm)),
        old(vm).stack@.len() == 0 ==> r == Result::<(), VMError>::Err(VMError::StackEnded),
        old(vm).stack@.len() >= 2 ==> {
            let a = old(vm).stack@.last()@;
            let b = old(vm).stack@[old(vm).stack@.len() - 2]@;
            let base = vals_view(old(vm).stack@.drop_last().drop_last());
            match (a, b) {
                (ValueView::Number(x), ValueView::Number(y)) => r is Ok && final(vm).stack_view()
                    == base.push(ValueView::Number(wrap_sub(x, y))) && final(vm).heap == old(vm).heap,
                (ValueView::Pointer(pa), ValueView::Number(nb)) => !old(vm).heap.spec_gc()
                    ==> (0 <= nb <= usize::MAX && nb <= pa ==> r is Ok && final(vm).stack_view()
                    == base.push(ValueView::Pointer((pa - nb) as usize))
                    && final(vm).heap.spec_slots() == old(vm).heap.spec_slots()
                    && final(vm).heap.spec_blocks() == old(vm).heap.spec_blocks()
                    && final(vm).heap.spec_rc() == old(vm).heap.spec_rc()),
                (ValueView::Number(nb), ValueView::Pointer(pa)) => !old(vm).heap.spec_gc()
                    ==> (0 <= nb <= usize::MAX && pa <= nb ==> r is Ok && final(vm).stack_view()
                    == base.push(ValueView::Pointer((nb - pa) as usize))
                    && final(vm).heap.spec_slots() == old(vm).heap.spec_slots()
                    && final(vm).heap.spec_blocks() == old(vm).heap.spec_blocks()
                    && final(vm).heap.spec_rc() == old(vm).heap.spec_rc()),
                _ => (!(a is Pointer) && !(b is Pointer)) ==> r == Result::<(), VMError>::Err(
                    VMError::ExpectedNumber,
                ) && final(vm).stack@ == old(vm).stack@.drop_last().drop_last() && final(vm).heap
                    == old(vm).heap,
            }
        },
{
    let va = match vm.pop() {
        Ok(v) => v,
        Err(e) => {
            return Err(e);
        },
    };
    let vb = match vm.pop() {
        Ok(v) => v,
        Err(e) => {
            return Err(e);
        },
    };
    match (va, vb) {
        (Value::Number(x), Value::Number(y)) => {
            let out = vm.push(Value::Number(x.wrapping_sub(y)));
            proof {
                assert(final(vm).stack_view() =~= vals_view(
                    old(vm).stack@.drop_last().drop_last(),
                ).push(ValueView::Number(wrap_sub(x, y))));
            }
            out
        },
        (Value::Pointer(p), Value::Number(y)) => {
            let off = number_as_offset(y)?;
            match p.checked_sub(off) {
                Some(np) => vm.push(Value::Pointer(np)),
                None => Err(VMError::BadPointer(p)),
            }
        },
        (Value::Number(y), Value::Pointer(p)) => {
            let off = number_as_offset(y)?;
            match off.checked_sub(p) {
                Some(np) => vm.push(Value::Pointer(np)),
                None => Err(VMError::BadPointer(p)),
            }
        },
        _ => Err(VMError::ExpectedNumber),
    }
}

/// Multiplies the top two numbers, wrapping.
pub fn mul(vm: &mut VM) -> (r: Result<(), VMError>)
    requires
        old(vm).wf(),
    ensures
        natives_still(*old(vm), *final(vm)),
        old(vm).stack@.len() == 0 ==> r == Result::<(), VMError>::Err(VMError::StackEnded),
        old(vm).stack@.len() >= 2 ==> {
            let a = old(vm).stack@.last()@;
            let b = old(vm).stack@[old(vm).stack@.len() - 2]@;
            let base = vals_view(old(vm).stack@.drop_last().drop_last());
            match (a, b) {
                (ValueView::Number(x), ValueView::Number(y)) => r is Ok && final(vm).stack_view()
                    == base.push(ValueView::Number(wrap_mul(x, y))) && final(vm).heap == old(vm).heap,
                _ => (!(a is Pointer) && !(b is Pointer)) ==> r == Result::<(), VMError>::Err(
                    VMError::ExpectedNumber,
                ) && final(vm).stack@ == old(vm).stack@.drop_last().drop_last() && final(vm).heap
                    == old(vm).heap,
            }
        },
{
    let va = match vm.pop() {
        Ok(v) => v,
        Err(e) => {
            return Err(e);
        },
    };
    let vb = match vm.pop() {
        Ok(v) => v,
        Err(e) => {
            return Err(e);
        },
    };
    match (va, vb) {
        (Value::Number(x), Value::Number(y)) => {
            let out = vm.push(Value::Number(x.wrapping_mul(y)));
            proof {
                assert(final(vm).stack_view() =~= vals_view(
                    old(vm).stack@.drop_last().drop_last(),
                ).push(ValueView::Number(wrap_mul(x, y))));
            }
            out
        },
        _ => Err(VMError::ExpectedNumber),
    }
}

/// Divides the top number by the second, toward zero; dividing by zero
/// is refused.
pub fn div(vm: &mut VM) -> (r: Result<(), VMError>)
    requires
        old(vm).wf(),
    ensures
        natives_still(*old(vm), *final(vm)),
        old(vm).stack@.len() == 0 ==> r == Result::<(), VMError>::Err(VMError::StackEnded),
        old(vm).stack@.len() >= 2 ==> {
            let a = old(vm).stack@.last()@;
            let b = old(vm).stack@[old(vm).stack@.len() - 2]@;
            let base = vals_view(old(vm).stack@.drop_last().drop_last());
            match (a, b) {
                (ValueView::Number(x), ValueView::Number(y)) => final(vm).heap == old(vm).heap && (
                if y == 0 {
                    r == Result::<(), VMError>::Err(VMError::DivisionByZero)
                } else {
                    r is Ok && final(vm).stack_view() == base.push(
                        ValueView::Number(div_wrap(x, y)),
                    )
                }),
                _ => (!(a is Pointer) && !(b is Pointer)) ==> r == Result::<(), VMError>::Err(
                    VMError::ExpectedNumber,
                ) && final(vm).stack@ == old(vm).stack@.drop_last().drop_last() && final(vm).heap
                    == old(vm).heap,
            }
        },
{
    let va = match vm.pop() {
        Ok(v) => v,
        Err(e) => {
            return Err(e);
        },
    };
    let vb = match vm.pop() {
        Ok(v) => v,
        Err(e) => {
            return Err(e);
        },
    };
    match (va, vb) {
        (Value::Number(x), Value::Number(y)) => {
            if y == 0 {
                return Err(VMError::DivisionByZero);
            }
            let ua: u64 = if x < 0 {
                (-(x as i128)) as u64
            } else {
                x as u64
            };
            let ub: u64 = if y < 0 {
                (-(y as i128)) as u64
            } else {
                y as u64
            };
            let q: u64 = ua / ub;
            let res: i64 = if (x < 0) != (y < 0) {
                if q > i64::MAX as u64 {
                    i64::MIN
                } else {
                    -(q as i64)
                }
            } else {
                if q > i64::MAX as u64 {
                    i64::MIN
                } else {
                    q as i64
                }
            };
            let out = vm.push(Value::Number(res));
            proof {
                assert(res == div_wrap(x, y));
                assert(final(vm).stack_view() =~= vals_view(
                    old(vm).stack@.drop_last().drop_last(),
                ).push(ValueView::Number(div_wrap(x, y))));
            }
            out
        },
        _ => Err(VMError::ExpectedNumber),
    }
}

/// Raises the top number to the second, wrapping; a negative exponent
/// is refused in this integer-valued machine.
pub fn pow(vm: &mut VM) -> (r: Result<(), VMError>)
    requires
        old(vm).wf(),
    ensures
        natives_still(*old(vm), *final(vm)),
        old(vm).stack@.len() == 0 ==> r == Result::<(), VMError>::Err(VMError::StackEnded),
        old(vm).stack@.len() >= 2 ==> {
            let a = old(vm).stack@.last()@;
            let b = old(vm).stack@[old(vm).stack@.len() - 2]@;
            let base = vals_view(old(vm).stack@.drop_last().drop_last());
            match (a, b) {
                (ValueView::Number(x), ValueView::Number(y)) => final(vm).heap == old(vm).heap && (
                if y >= 0 {
                    r is Ok && final(vm).stack_view() == base.push(
                        ValueView::Number(pow_wrap(x, y as nat)),
                    )
                } else {
                    r == Result::<(), VMError>::Err(VMError::ExpectedInteger)
                }),
                _ => (!(a is Pointer) && !(b is Pointer)) ==> r == Result::<(), VMError>::Err(
                    VMError::ExpectedNumber,
                ) && final(vm).stack@ == old(vm).stack@.drop_last().drop_last() && final(vm).heap
                    == old(vm).heap,
            }
        },
{
    let va = match vm.pop() {
        Ok(v) => v,
        Err(e) => {
            return Err(e);
        },
    };
    let vb = match vm.pop() {
        Ok(v) => v,
        Err(e) => {
            return Err(e);
        },
    };
    match (va, vb) {
        (Value::Number(x), Value::Number(y)) => {
            if y < 0 {
                return Err(VMError::ExpectedInteger);
            }
            let mut acc: i64 = 1;
            let mut j: i64 = 0;
            while j < y
                invariant
                    0 <= j <= y,
                    acc == pow_wrap(x, j as nat),
                decreases y - j,
            {
                acc = acc.wrapping_mul(x);
                j = j + 1;
            }
            let out = vm.push(Value::Number(acc));
            proof {
                assert(final(vm).stack_view() =~= vals_view(
                    old(vm).stack@.drop_last().drop_last(),
                ).push(ValueView::Number(pow_wrap(x, y as nat))));
            }
            out
        },
        _ => Err(VMError::ExpectedNumber),
    }
}

/// Pushes the largest whole `r` with `r` to the power of the second
/// number at most the top one; wants a nonnegative base and a positive
/// whole degree.
pub fn root(vm: &mut VM) -> (r: Result<(), VMError>)
    requires
        old(vm).wf(),
    ensures
        natives_still(*old(vm), *final(vm)),
        old(vm).stack@.len() == 0 ==> r == Result::<(), VMError>::Err(VMError::StackEnded),
        old(vm).stack@.len() >= 2 ==> {
            let a = old(vm).stack@.last()@;
            let b = old(vm).stack@[old(vm).stack@.len() - 2]@;
            let base = vals_view(old(vm).stack@.drop_last().drop_last());
            match (a, b) {
                (ValueView::Number(x), ValueView::Number(y)) => final(vm).heap == old(vm).heap && (
                if x >= 0 && y >= 1 {
                    r is Ok && final(vm).stack_view().len() == base.len() + 1 && (final(vm).stack_view().last() matches ValueView::Number(root)
                        && pow_int(root as int, y as nat) <= x
                        && pow_int(root as int + 1, y as nat) > x && root >= 0)
                } else {
                    r is Err
                }),
                _ => (!(a is Pointer) && !(b is Pointer)) ==> r == Result::<(), VMError>::Err(
                    VMError::ExpectedNumber,
                ) && final(vm).stack@ == old(vm).stack@.drop_last().drop_last() && final(vm).heap
                    == old(vm).heap,
            }
        },
{
    let va = match vm.pop() {
        Ok(v) => v,
        Err(e) => {
            return Err(e);
        },
    };
    let vb = match vm.pop() {
        Ok(v) => v,
        Err(e) => {
            return Err(e);
        },
    };
    match (va, vb) {
        (Value::Number(x), Value::Number(y)) => {
            if x < 0 || y < 1 {
                return Err(VMError::ExpectedInteger);
            }
            let yy = y as u64;
            let mut root: i64 = 0;
            proof {
                lemma_pow_zero_base(yy as nat);
                assert(pow_int(0int, yy as nat) <= x || yy == 0);
            }
            loop
                invariant
                    vm.wf(),
                    natives_still(*old(vm), *vm),
                    vm.heap == old(vm).heap,
                    old(vm).stack@.len() >= 2,
                    vm.stack@ == old(vm).stack@.drop_last().drop_last(),
                    old(vm).stack@.last()@ == ValueView::Number(x),
                    old(vm).stack@[old(vm).stack@.len() - 2]@ == ValueView::Number(y),
                    x >= 0,
                    y >= 1,
                    yy == y as u64,
                    0 <= root <= x,
                    pow_int(root as int, yy as nat) <= x,
                decreases x - root,
            {
                let next = match root.checked_add(1) {
                    Some(v) => v,
                    None => {
                        proof {
                            lemma_pow_at_least_base(root as int + 1, yy as nat);
                        }
                        let out = vm.push(Value::Number(root));
                        proof {
                            assert(final(vm).stack_view() =~= vals_view(
                                old(vm).stack@.drop_last().drop_last(),
                            ).push(ValueView::Number(root)));
                        }
                        return out;
                    },
                };
                match ipow_checked(next, yy) {
                    Some(p) => {
                        if p > x {
                            let out = vm.push(Value::Number(root));
                            proof {
                                assert(final(vm).stack_view() =~= vals_view(
                                    old(vm).stack@.drop_last().drop_last(),
                                ).push(ValueView::Number(root)));
                            }
                            return out;
                        }
                        proof {
                            assert(pow_int(next as int, yy as nat) >= next) by {
                                lemma_pow_at_least_base(next as int, yy as nat);
                            }
                        }
                        root = next;
                    },
                    None => {
                        let out = vm.push(Value::Number(root));
                        proof {
                            assert(final(vm).stack_view() =~= vals_view(
                                old(vm).stack@.drop_last().drop_last(),
                            ).push(ValueView::Number(root)));
                        }
                        return out;
                    },
                }
            }
        },
        _ => Err(VMError::ExpectedNumber),
    }
}

/// A positive base to a positive power is at least the base.
pub proof fn lemma_pow_at_least_base(a: int, b: nat)
    requires
        a >= 1,
        b >= 1,
    ensures
        pow_int(a, b) >= a,
    decreases b,
{
    if b > 1 {
        lemma_pow_at_least_base(a, (b - 1) as nat);
        assert(pow_int(a, (b - 1) as nat) >= 1) by {
            lemma_pow_nonneg(a, (b - 1) as nat);
        }
        assert(a * pow_int(a, (b - 1) as nat) >= a) by (nonlinear_arith)
            requires
                a >= 1,
                pow_int(a, (b - 1) as nat) >= 1,
        ;
    } else {
        assert(pow_int(a, 0) == 1);
    }
}

/// Pops two values and pushes whether they are equal, text by contents.
pub fn equal(vm: &mut VM) -> (r: Result<(), VMError>)
    requires
        old(vm).wf(),
    ensures
        natives_still(*old(vm), *final(vm)),
        old(vm).stack@.len() == 0 ==> r == Result::<(), VMError>::Err(VMError::StackEnded),
        old(vm).stack@.len() >= 2 && !(old(vm).stack@.last()@ is Pointer) && !(old(vm).stack@[old(vm).stack@.len() - 2]@ is Pointer) ==> r is Ok && final(vm).heap == old(vm).heap && final(vm).stack_view() == vals_view(old(vm).stack@.drop_last().drop_last()).push(
            ValueView::Boolean(
                old(vm).stack@.last()@ == old(vm).stack@[old(vm).stack@.len() - 2]@,
            ),
        ),
        old(vm).stack@.len() >= 2 && !old(vm).heap.spec_gc() ==> r is Ok
            && final(vm).heap.spec_slots() == old(vm).heap.spec_slots()
            && final(vm).heap.spec_blocks() == old(vm).heap.spec_blocks()
            && final(vm).heap.spec_rc() == old(vm).heap.spec_rc() && final(vm).stack_view()
            == vals_view(old(vm).stack@.drop_last().drop_last()).push(
            ValueView::Boolean(
                old(vm).stack@.last()@ == old(vm).stack@[old(vm).stack@.len() - 2]@,
            ),
        ),
{
    let a = match vm.pop() {
        Ok(v) => v,
        Err(e) => {
            return Err(e);
        },
    };
    let b = match vm.pop() {
        Ok(v) => v,
        Err(e) => {
            return Err(e);
        },
    };
    let eq = value_eq(&a, &b);
    let out = vm.push(Value::Boolean(eq));
    proof {
        if old(vm).stack@.len() >= 2 {
            assert(final(vm).stack_view() =~= vals_view(
                old(vm).stack@.drop_last().drop_last(),
            ).push(ValueView::Boolean(a@ == b@)));
        }
    }
    out
}

/// Logical complement of the top boolean.
pub fn neg(vm: &mut VM) -> (r: Result<(), VMError>)
    requires
        old(vm).wf(),
    ensures
        natives_still(*old(vm), *final(vm)),
        old(vm).stack@.len() == 0 ==> r == Result::<(), VMError>::Err(VMError::StackEnded),
        old(vm).stack@.len() > 0 ==> match old(vm).stack@.last()@ {
            ValueView::Boolean(bv) => r is Ok && final(vm).heap == old(vm).heap && final(vm).stack_view() == vals_view(old(vm).stack@.drop_last()).push(
                ValueView::Boolean(!bv),
            ),
            _ => !(old(vm).stack@.last()@ is Pointer) ==> r == Result::<(), VMError>::Err(
                VMError::ExpectedBoolean,
            ),
        },
{
    let v = match vm.pop() {
        Ok(v) => v,
        Err(e) => {
            return Err(e);
        },
    };
    match v {
        Value::Boolean(b) => {
            let out = vm.push(Value::Boolean(!b));
            proof {
                assert(final(vm).stack_view() =~= vals_view(old(vm).stack@.drop_last()).push(
                    ValueView::Boolean(!b),
                ));
            }
            out
        },
        _ => Err(VMError::ExpectedBoolean),
    }
}


/// Disjunction of the top two booleans.
pub fn or(vm: &mut VM) -> (r: Result<(), VMError>)
    requires
        old(vm).wf(),
    ensures
        natives_still(*old(vm), *final(vm)),
        old(vm).stack@.len() == 0 ==> r == Result::<(), VMError>::Err(VMError::StackEnded),
        old(vm).stack@.len() >= 2 ==> match (old(vm).stack@.last()@, old(vm).stack@[old(vm).stack@.len() - 2]@) {
            (ValueView::Boolean(x), ValueView::Boolean(y)) => r is Ok && final(vm).heap == old(vm).heap && final(vm).stack_view() == vals_view(
                old(vm).stack@.drop_last().drop_last(),
            ).push(ValueView::Boolean(x || y)),
            _ => (!(old(vm).stack@.last()@ is Pointer) && !(old(vm).stack@[old(vm).stack@.len()
                - 2]@ is Pointer)) ==> r == Result::<(), VMError>::Err(VMError::ExpectedBoolean)
                && final(vm).stack@ == old(vm).stack@.drop_last().drop_last() && final(vm).heap
                == old(vm).heap,
        },
{
    let va = match vm.pop() {
        Ok(v) => v,
        Err(e) => {
            return Err(e);
        },
    };
    let vb = match vm.pop() {
        Ok(v) => v,
        Err(e) => {
            return Err(e);
        },
    };
    match (va, vb) {
        (Value::Boolean(x), Value::Boolean(y)) => {
            let out = vm.push(Value::Boolean(x || y));
            proof {
                assert(final(vm).stack_view() =~= vals_view(
                    old(vm).stack@.drop_last().drop_last(),
                ).push(ValueView::Boolean(x || y)));
            }
            out
        },
        _ => Err(VMError::ExpectedBoolean),
    }
}

/// Conjunction of the top two booleans.
pub fn and(vm: &mut VM) -> (r: Result<(), VMError>)
    requires
        old(vm).wf(),
    ensures
        natives_still(*old(vm), *final(vm)),
        old(vm).stack@.len() == 0 ==> r == Result::<(), VMError>::Err(VMError::StackEnded),
        old(vm).stack@.len() >= 2 ==> match (old(vm).stack@.last()@, old(vm).stack@[old(vm).stack@.len() - 2]@) {
            (ValueView::Boolean(x), ValueView::Boolean(y)) => r is Ok && final(vm).heap == old(vm).heap && final(vm).stack_view() == vals_view(
                old(vm).stack@.drop_last().drop_last(),
            ).push(ValueView::Boolean(x && y)),
            _ => (!(old(vm).stack@.last()@ is Pointer) && !(old(vm).stack@[old(vm).stack@.len()
                - 2]@ is Pointer)) ==> r == Result::<(), VMError>::Err(VMError::ExpectedBoolean)
                && final(vm).stack@ == old(vm).stack@.drop_last().drop_last() && final(vm).heap
                == old(vm).heap,
        },
{
    let va = match vm.pop() {
        Ok(v) => v,
        Err(e) => {
            return Err(e);
        },
    };
    let vb = match vm.pop() {
        Ok(v) => v,
        Err(e) => {
            return Err(e);
        },
    };
    match (va, vb) {
        (Value::Boolean(x), Value::Boolean(y)) => {
            let out = vm.push(Value::Boolean(x && y));
            proof {
                assert(final(vm).stack_view() =~= vals_view(
                    old(vm).stack@.drop_last().drop_last(),
                ).push(ValueView::Boolean(x && y)));
            }
            out
        },
        _ => Err(VMError::ExpectedBoolean),
    }
}

/// Whether the top number exceeds the second.
pub fn gt(vm: &mut VM) -> (r: Result<(), VMError>)
    requires
        old(vm).wf(),
    ensures
        natives_still(*old(vm), *final(vm)),
        old(vm).stack@.len() == 0 ==> r == Result::<(), VMError>::Err(VMError::StackEnded),
        old(vm).stack@.len() >= 2 ==> match (old(vm).stack@.last()@, old(vm).stack@[old(vm).stack@.len() - 2]@) {
            (ValueView::Number(x), ValueView::Number(y)) => r is Ok && final(vm).heap == old(vm).heap && final(vm).stack_view() == vals_view(
                old(vm).stack@.drop_last().drop_last(),
            ).push(ValueView::Boolean(x > y)),
            _ => (!(old(vm).stack@.last()@ is Pointer) && !(old(vm).stack@[old(vm).stack@.len()
                - 2]@ is Pointer)) ==> r == Result::<(), VMError>::Err(VMError::ExpectedBoolean)
                && final(vm).stack@ == old(vm).stack@.drop_last().drop_last() && final(vm).heap
                == old(vm).heap,
        },
{
    let va = match vm.pop() {
        Ok(v) => v,
        Err(e) => {
            return Err(e);
        },
    };
    let vb = match vm.pop() {
        Ok(v) => v,
        Err(e) => {
            return Err(e);
        },
    };
    match (va, vb) {
        (Value::Number(x), Value::Number(y)) => {
            let out = vm.push(Value::Boolean(x > y));
            proof {
                assert(final(vm).stack_view() =~= vals_view(
                    old(vm).stack@.drop_last().drop_last(),
                ).push(ValueView::Boolean(x > y)));
            }
            out
        },
        _ => Err(VMError::ExpectedBoolean),
    }
}

/// Whether the top number is below the second.
pub fn lt(vm: &mut VM) -> (r: Result<(), VMError>)
    requires
        old(vm).wf(),
    ensures
        natives_still(*old(vm), *final(vm)),
        old(vm).stack@.len() == 0 ==> r == Result::<(), VMError>::Err(VMError::StackEnded),
        old(vm).stack@.len() >= 2 ==> match (old(vm).stack@.last()@, old(vm).stack@[old(vm).stack@.len() - 2]@) {
            (ValueView::Number(x), ValueView::Number(y)) => r is Ok && final(vm).heap == old(vm).heap && final(vm).stack_view() == vals_view(
                old(vm).stack@.drop_last().drop_last(),
            ).push(ValueView::Boolean(x < y)),
            _ => (!(old(vm).stack@.last()@ is Pointer) && !(old(vm).stack@[old(vm).stack@.len()
                - 2]@ is Pointer)) ==> r == Result::<(), VMError>::Err(VMError::ExpectedBoolean)
                && final(vm).stack@ == old(vm).stack@.drop_last().drop_last() && final(vm).heap
                == old(vm).heap,
        },
{
    let va = match vm.pop() {
        Ok(v) => v,
        Err(e) => {
            return Err(e);
        },
    };
    let vb = match vm.pop() {
        Ok(v) => v,
        Err(e) => {
            return Err(e);
        },
    };
    match (va, vb) {
        (Value::Number(x), Value::Number(y)) => {
            let out = vm.push(Value::Boolean(x < y));
            proof {
                assert(final(vm).stack_view() =~= vals_view(
                    old(vm).stack@.drop_last().drop_last(),
                ).push(ValueView::Boolean(x < y)));
            }
            out
        },
        _ => Err(VMError::ExpectedBoolean),
    }
}

/// Whether the top number is at least the second.
pub fn gte(vm: &mut VM) -> (r: Result<(), VMError>)
    requires
        old(vm).wf(),
    ensures
        natives_still(*old(vm), *final(vm)),
        old(vm).stack@.len() == 0 ==> r == Result::<(), VMError>::Err(VMError::StackEnded),
        old(vm).stack@.len() >= 2 ==> match (old(vm).stack@.last()@, old(vm).stack@[old(vm).stack@.len() - 2]@) {
            (ValueView::Number(x), ValueView::Number(y)) => r is Ok && final(vm).heap == old(vm).heap && final(vm).stack_view() == vals_view(
                old(vm).stack@.drop_last().drop_last(),
            ).push(ValueView::Boolean(x >= y)),
            _ => (!(old(vm).stack@.last()@ is Pointer) && !(old(vm).stack@[old(vm).stack@.len()
                - 2]@ is Pointer)) ==> r == Result::<(), VMError>::Err(VMError::ExpectedBoolean)
                && final(vm).stack@ == old(vm).stack@.drop_last().drop_last() && final(vm).heap
                == old(vm).heap,
        },
{
    let va = match vm.pop() {
        Ok(v) => v,
        Err(e) => {
            return Err(e);
        },
    };
    let vb = match vm.pop() {
        Ok(v) => v,
        Err(e) => {
            return Err(e);
        },
    };
    match (va, vb) {
        (Value::Number(x), Value::Number(y)) => {
            let out = vm.push(Value::Boolean(x >= y));
            proof {
                assert(final(vm).stack_view() =~= vals_view(
                    old(vm).stack@.drop_last().drop_last(),
                ).push(ValueView::Boolean(x >= y)));
            }
            out
        },
        _ => Err(VMError::ExpectedBoolean),
    }
}

/// Whether the top number is at most the second.
pub fn lte(vm: &mut VM) -> (r: Result<(), VMError>)
    requires
        old(vm).wf(),
    ensures
        natives_still(*old(vm), *final(vm)),
        old(vm).stack@.len() == 0 ==> r == Result::<(), VMError>::Err(VMError::StackEnded),
        old(vm).stack@.len() >= 2 ==> match (old(vm).stack@.last()@, old(vm).stack@[old(vm).stack@.len() - 2]@) {
            (ValueView::Number(x), ValueView::Number(y)) => r is Ok && final(vm).heap == old(vm).heap && final(vm).stack_view() == vals_view(
                old(vm).stack@.drop_last().drop_last(),
            ).push(ValueView::Boolean(x <= y)),
            _ => (!(old(vm).stack@.last()@ is Pointer) && !(old(vm).stack@[old(vm).stack@.len()
                - 2]@ is Pointer)) ==> r == Result::<(), VMError>::Err(VMError::ExpectedBoolean)
                && final(vm).stack@ == old(vm).stack@.drop_last().drop_last() && final(vm).heap
                == old(vm).heap,
        },
{
    let va = match vm.pop() {
        Ok(v) => v,
        Err(e) => {
            return Err(e);
        },
    };
    let vb = match vm.pop() {
        Ok(v) => v,
        Err(e) => {
            return Err(e);
        },
    };
    match (va, vb) {
        (Value::Number(x), Value::Number(y)) => {
            let out = vm.push(Value::Boolean(x <= y));
            proof {
                assert(final(vm).stack_view() =~= vals_view(
                    old(vm).stack@.drop_last().drop_last(),
                ).push(ValueView::Boolean(x <= y)));
            }
            out
        },
        _ => Err(VMError::ExpectedBoolean),
    }
}

/// Pops a block value and pushes whether that name resolves.
pub fn block_exists(vm: &mut VM) -> (r: Result<(), VMError>)
    requires
        old(vm).wf(),
        old(vm).scope_manager.scopes@.len() >= 1,
    ensures
        natives_still(*old(vm), *final(vm)),
        old(vm).stack@.len() == 0 ==> r == Result::<(), VMError>::Err(VMError::StackEnded),
        old(vm).stack@.len() > 0 ==> match old(vm).stack@.last()@ {
            ValueView::Block(name) => r is Ok && final(vm).heap == old(vm).heap && final(vm).stack_view() == vals_view(old(vm).stack@.drop_last()).push(
                ValueView::Boolean(
                    old(vm).scope_manager.scopes@.last().blocks.blocks_map().contains_key(name),
                ),
            ),
            _ => !(old(vm).stack@.last()@ is Pointer) ==> r == Result::<(), VMError>::Err(
                VMError::ExpectedBlock,
            ),
        },
{
    let v = match vm.pop() {
        Ok(v) => v,
        Err(e) => {
            return Err(e);
        },
    };
    match v {
        Value::Block(name) => {
            proof {
                assert(vm.scope_manager.scopes@[vm.scope_manager.scopes@.len() - 1].wf());
            }
            let found = vm.scope_manager.blocks().blocks.contains_key(&name);
            vm.stack.push(Value::Boolean(found));
            proof {
                assert(final(vm).stack_view() =~= vals_view(old(vm).stack@.drop_last()).push(
                    ValueView::Boolean(
                        old(vm).scope_manager.scopes@.last().blocks.blocks_map().contains_key(
                            name@,
                        ),
                    ),
                ));
            }
            Ok(())
        },
        _ => Err(VMError::ExpectedBlock),
    }
}

/// Pops a block value and runs that block.
pub fn call(vm: &mut VM, fuel: u64) -> (r: Result<(), VMError>)
    requires
        old(vm).wf(),
        old(vm).scope_manager.scopes@.len() >= 1,
    ensures
        run_frame(*old(vm), *final(vm)),
        old(vm).stack@.len() == 0 ==> r == Result::<(), VMError>::Err(VMError::StackEnded),
        old(vm).stack@.len() > 0 ==> match old(vm).stack@.last()@ {
            ValueView::Block(name) => {
                &&& (fuel == 0 ==> r == Result::<(), VMError>::Err(VMError::OutOfFuel))
                &&& (fuel >= 1 && !old(vm).scope_manager.scopes@.last().blocks.blocks_map().contains_key(
                    name,
                ) ==> (r matches Err(e) && e is UnknownBlock) && final(vm).stack@ == old(vm).stack@.drop_last() && final(vm).heap == old(vm).heap)
            },
            _ => !(old(vm).stack@.last()@ is Pointer) ==> r == Result::<(), VMError>::Err(
                VMError::ExpectedBlock,
            ) && final(vm).stack@ == old(vm).stack@.drop_last() && final(vm).heap == old(vm).heap,
        },
    decreases fuel, 0int,
{
    let v = match vm.pop() {
        Ok(v) => v,
        Err(e) => {
            return Err(e);
        },
    };
    match v {
        Value::Block(name) => {
            if fuel == 0 {
                return Err(VMError::OutOfFuel);
            }
            match vm.run_block(&name, (fuel - 1) as u64) {
                Ok(_) => Ok(()),
                Err(e) => Err(e),
            }
        },
        _ => Err(VMError::ExpectedBlock),
    }
}

/// The value a slot holds, or the null value for an empty slot.
pub open spec fn slot_or_null(h: crate::heap::Heap, p: usize) -> ValueView {
    if h.spec_slots().contains_key(p) {
        h.spec_slots().index(p)@
    } else {
        ValueView::Null
    }
}

/// Pops a pointer bare and pushes the value its slot holds (or the
/// null value), giving back the count the stack held on the target.
pub fn deref(vm: &mut VM) -> (r: Result<(), VMError>)
    requires
        old(vm).wf(),
    ensures
        natives_still(*old(vm), *final(vm)),
        old(vm).stack@.len() == 0 ==> r == Result::<(), VMError>::Err(VMError::StackEnded),
        old(vm).stack@.len() > 0 && !(old(vm).stack@.last()@ is Pointer) ==> r == Result::<
            (),
            VMError,
        >::Err(VMError::ExpectedPointer) && final(vm).heap == old(vm).heap && final(vm).stack@
            == old(vm).stack@.drop_last(),
        old(vm).stack@.len() > 0 ==> (old(vm).stack@.last()@ matches ValueView::Pointer(p) ==> {
            let got = slot_or_null(old(vm).heap, p);
            &&& (r is Ok ==> final(vm).stack_view().len() == old(vm).stack_view().len() && final(vm).stack_view().last() == got)
            &&& (!old(vm).heap.spec_gc() ==> r is Ok && final(vm).heap.spec_slots() == old(vm).heap.spec_slots() && final(vm).heap.spec_blocks() == old(vm).heap.spec_blocks()
                && final(vm).heap.spec_rc() == old(vm).heap.spec_rc() && final(vm).stack_view()
                == vals_view(old(vm).stack@.drop_last()).push(got))
            &&& (old(vm).heap.spec_gc() && crate::heap::owner_of(
                old(vm).heap.spec_blocks(),
                p,
            ) is None ==> (r matches Err(e) && e is HeapError))
            &&& (old(vm).heap.spec_gc() ==> (crate::heap::owner_of(
                old(vm).heap.spec_blocks(),
                p,
            ) matches Some(mb) ==> (((old(vm).heap.spec_rc().contains_key(mb.pointer) && old(vm).heap.spec_rc().index(mb.pointer) >= 2) || crate::heap::no_pointer_slots(
                old(vm).heap.spec_slots(),
                mb,
            )) && !(got is Pointer) ==> r is Ok && crate::heap::rc_minus_rel(
                old(vm).heap,
                final(vm).heap,
                p,
                true,
            ))))
        }),
{
    let ptrval = match vm.stack.pop() {
        Some(v) => v,
        None => {
            return Err(VMError::StackEnded);
        },
    };
    match ptrval {
        Value::Pointer(p) => {
            let got = vm.heap.get(p);
            let val = match got {
                Some(v) => v,
                None => Value::Null,
            };
            match heap_result_into_vm(vm.heap.rc_minus(p)) {
                Ok(()) => {},
                Err(e) => {
                    return Err(e);
                },
            }
            vm.push(val)
        },
        _ => Err(VMError::ExpectedPointer),
    }
}

/// Pops a pointer, then takes the next value bare and stores it at the
/// pointer's slot; the store itself settles the counts.
pub fn set_ref(vm: &mut VM) -> (r: Result<(), VMError>)
    requires
        old(vm).wf(),
    ensures
        natives_still(*old(vm), *final(vm)),
        old(vm).stack@.len() == 0 ==> r == Result::<(), VMError>::Err(VMError::StackEnded),
        old(vm).stack@.len() >= 2 ==> (old(vm).stack@.last()@ matches ValueView::Pointer(p) ==> {
            let stored = old(vm).stack@[old(vm).stack@.len() - 2]@;
            &&& (r is Ok ==> final(vm).stack@ == old(vm).stack@.drop_last().drop_last())
            &&& (r is Ok && !(stored is Pointer) ==> final(vm).heap.spec_slots().contains_key(p)
                && final(vm).heap.spec_slots().index(p)@ == stored)
            &&& (!old(vm).heap.spec_gc() ==> r is Ok && final(vm).heap.spec_blocks() == old(vm).heap.spec_blocks() && final(vm).heap.spec_rc() == old(vm).heap.spec_rc() && final(vm).heap.spec_slots().contains_key(p) && final(vm).heap.spec_slots().index(p)@ == stored
                && (forall|a: usize|
                a != p ==> final(vm).heap.spec_slots().contains_key(a) == old(vm).heap.spec_slots().contains_key(a) && (old(vm).heap.spec_slots().contains_key(a)
                    ==> final(vm).heap.spec_slots().index(a) == old(vm).heap.spec_slots().index(
                    a,
                ))))
            &&& (old(vm).heap.spec_gc() && !(stored is Pointer) ==> (crate::heap::owner_of(
                old(vm).heap.spec_blocks(),
                p,
            ) matches Some(mb) ==> ((old(vm).heap.spec_rc().contains_key(mb.pointer) && old(vm).heap.spec_rc().index(mb.pointer) >= 2) ==> r is Ok)))
        }),
{
    let ptrval = match vm.pop() {
        Ok(v) => v,
        Err(e) => {
            return Err(e);
        },
    };
    let p = match ptrval {
        Value::Pointer(p) => p,
        _ => {
            return Err(VMError::ExpectedPointer);
        },
    };
    let val = match vm.stack.pop() {
        Some(v) => v,
        None => {
            return Err(VMError::ExpectedValue);
        },
    };
    let val2 = val.clone();
    match heap_result_into_vm(vm.heap.set(p, val)) {
        Ok(()) => {},
        Err(e) => {
            return Err(e);
        },
    }
    vm.handle_minus(val2)
}

/// Pops a size and allocates that many fresh slots, pushing the base
/// address, which starts with the one count the stack now holds.
pub fn alloc_native(vm: &mut VM) -> (r: Result<(), VMError>)
    requires
        old(vm).wf(),
    ensures
        natives_still(*old(vm), *final(vm)),
        old(vm).stack@.len() == 0 ==> r == Result::<(), VMError>::Err(VMError::StackEnded),
        old(vm).stack@.len() > 0 ==> match old(vm).stack@.last()@ {
            ValueView::Number(n) => 0 <= n <= usize::MAX ==> (r is Ok ==> {
                &&& final(vm).stack_view().len() == old(vm).stack_view().len()
                &&& final(vm).stack_view().last() matches ValueView::Pointer(p)
                &&& crate::heap::range_free(old(vm).heap.spec_blocks(), p, n as usize)
                &&& forall|q: usize|
                    q < p ==> !(#[trigger] crate::heap::range_free(
                        old(vm).heap.spec_blocks(),
                        q,
                        n as usize,
                    ))
                &&& final(vm).heap.spec_blocks() == old(vm).heap.spec_blocks().push(
                    crate::heap::MemoryBlock { pointer: p, size: n as usize },
                )
                &&& final(vm).heap.spec_slots() == old(vm).heap.spec_slots()
            }),
            _ => !(old(vm).stack@.last()@ is Pointer) ==> r == Result::<(), VMError>::Err(
                VMError::ExpectedPointer,
            ) && final(vm).stack@ == old(vm).stack@.drop_last() && final(vm).heap == old(vm).heap,
        },
{
    let size = match vm.pop_pointer() {
        Ok(v) => v,
        Err(e) => {
            return Err(e);
        },
    };
    let block = match heap_result_into_vm(vm.heap.allocate(size)) {
        Ok(b) => b,
        Err(e) => {
            return Err(e);
        },
    };
    vm.stack.push(Value::Pointer(block.pointer));
    proof {
        assert(vm.stack_view() =~= old(vm).stack@.drop_last().map_values(|v: Value| v@).push(
            ValueView::Pointer(block.pointer),
        ));
    }
    Ok(())
}

/// Pops a pointer and a size and regrows that allocation, pushing the
/// new base bare.
pub fn realloc(vm: &mut VM) -> (r: Result<(), VMError>)
    requires
        old(vm).wf(),
    ensures
        natives_still(*old(vm), *final(vm)),
        old(vm).stack@.len() == 0 ==> r == Result::<(), VMError>::Err(VMError::StackEnded),
        r is Ok ==> final(vm).stack_view().len() == old(vm).stack_view().len() - 1 && (final(vm).stack_view().last() is Pointer),
        old(vm).stack@.len() >= 2 && !old(vm).heap.spec_gc() ==> (old(vm).stack@.last()@ matches
        ValueView::Pointer(p) ==> (old(vm).stack@[old(vm).stack@.len() - 2]@ matches
        ValueView::Number(n) ==> (0 <= n ==> (crate::heap::base_of(
            old(vm).heap.spec_blocks(),
            p,
        ) matches Some(mb) ==> (n <= mb.size ==> r is Ok && final(vm).heap == old(vm).heap
            && final(vm).stack_view() == vals_view(old(vm).stack@.drop_last().drop_last()).push(
            ValueView::Pointer(mb.pointer),
        )))))),
{
    let ptrval = match vm.pop() {
        Ok(v) => v,
        Err(e) => {
            return Err(e);
        },
    };
    let p = match ptrval {
        Value::Pointer(p) => p,
        _ => {
            return Err(VMError::ExpectedPointer);
        },
    };
    let size = match vm.pop_pointer() {
        Ok(v) => v,
        Err(e) => {
            return Err(e);
        },
    };
    let np = match heap_result_into_vm(vm.heap.realloc(p, size)) {
        Ok(v) => v,
        Err(e) => {
            return Err(e);
        },
    };
    vm.stack.push(Value::Pointer(np));
    proof {
        assert(vm.stack_view() =~= vals_view(old(vm).stack@.drop_last().drop_last()).push(
            ValueView::Pointer(np),
        ));
    }
    Ok(())
}

/// Pops a pointer and frees its whole allocation at once.
pub fn free(vm: &mut VM) -> (r: Result<(), VMError>)
    requires
        old(vm).wf(),
    ensures
        natives_still(*old(vm), *final(vm)),
        old(vm).stack@.len() == 0 ==> r == Result::<(), VMError>::Err(VMError::StackEnded),
        r is Ok ==> final(vm).stack@ == old(vm).stack@.drop_last(),
        old(vm).stack@.len() > 0 ==> (old(vm).stack@.last()@ matches ValueView::Pointer(p) ==> {
            &&& (r is Ok ==> crate::heap::base_of(final(vm).heap.spec_blocks(), p) is None)
            &&& (!old(vm).heap.spec_gc() ==> r is Ok)
        }),
        old(vm).stack@.len() > 0 && !(old(vm).stack@.last()@ is Pointer) ==> r == Result::<
            (),
            VMError,
        >::Err(VMError::ExpectedPointer) && final(vm).stack@ == old(vm).stack@.drop_last()
            && final(vm).heap == old(vm).heap,
{
    let ptrval = match vm.pop() {
        Ok(v) => v,
        Err(e) => {
            return Err(e);
        },
    };
    let p = match ptrval {
        Value::Pointer(p) => p,
        _ => {
            return Err(VMError::ExpectedPointer);
        },
    };
    match vm.heap.free(p) {
        Ok(()) => Ok(()),
        Err(_) => Err(VMError::BadPointer(p)),
    }
}

} // verus!
