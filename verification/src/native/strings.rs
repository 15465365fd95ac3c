//! Text natives: length, concatenation, splitting and character access.
use crate::machine::{natives_still, vals_view, VMError, VM};
use crate::value::{Value, ValueView};
use vstd::prelude::*;
use vstd::utf8::encode_utf8;

verus! {

/// The needle's characters stand at position `i` of the haystack.
pub open spec fn occurs_at_spec(h: Seq<char>, needle: Seq<char>, i: int) -> bool {
    0 <= i && i + needle.len() <= h.len() && h.subrange(i, i + needle.len() as int) == needle
}

/// A needle occurs somewhere in the haystack, character for character.
pub open spec fn str_contains_spec(h: Seq<char>, needle: Seq<char>) -> bool {
    exists|i: int| occurs_at_spec(h, needle, i)
}

/// Pops a string and pushes the length of its written form in bytes.
pub fn strlen(vm: &mut VM) -> (r: Result<(), VMError>)
    requires
        old(vm).wf(),
    ensures
        natives_still(*old(vm), *final(vm)),
        old(vm).stack@.len() == 0 ==> r == Result::<(), VMError>::Err(VMError::StackEnded),
        old(vm).stack@.len() > 0 ==> match old(vm).stack@.last()@ {
            ValueView::Str(s) => encode_utf8(s).len() <= i64::MAX ==> r is Ok && final(vm).heap
                == old(vm).heap && final(vm).stack_view() == vals_view(
                old(vm).stack@.drop_last(),
            ).push(ValueView::Number(encode_utf8(s).len() as i64)),
            _ => !(old(vm).stack@.last()@ is Pointer) ==> r == Result::<(), VMError>::Err(
                VMError::ExpectedString,
            ),
        },
{
    let v = match vm.pop() {
        Ok(v) => v,
        Err(e) => {
            return Err(e);
        },
    };
    match v {
        Value::String(s) => {
            let n = s.as_str().as_bytes().len();
            let nu = n as u64;
            if nu > i64::MAX as u64 {
                return Err(VMError::CannotConvert(Value::String(s)));
            }
            let out = vm.push(Value::Number(nu as i64));
            proof {
                assert(final(vm).stack_view() =~= vals_view(old(vm).stack@.drop_last()).push(
                    ValueView::Number(nu as i64),
                ));
            }
            out
        },
        _ => Err(VMError::ExpectedString),
    }
}

/// Pops two strings and pushes the top one followed by the second.
pub fn concat(vm: &mut VM) -> (r: Result<(), VMError>)
    requires
        old(vm).wf(),
    ensures
        natives_still(*old(vm), *final(vm)),
        old(vm).stack@.len() == 0 ==> r == Result::<(), VMError>::Err(VMError::StackEnded),
        old(vm).stack@.len() >= 2 ==> match (old(vm).stack@.last()@, old(vm).stack@[old(
            vm,
        ).stack@.len() - 2]@) {
            (ValueView::Str(a), ValueView::Str(b)) => r is Ok && final(vm).heap == old(vm).heap
                && final(vm).stack_view() == vals_view(old(vm).stack@.drop_last().drop_last()).push(
                ValueView::Str(a + b),
            ),
            _ => (!(old(vm).stack@.last()@ is Pointer) && !(old(vm).stack@[old(vm).stack@.len()
                - 2]@ is Pointer)) ==> r == Result::<(), VMError>::Err(VMError::ExpectedString)
                && final(vm).stack@ == old(vm).stack@.drop_last().drop_last() && final(vm).heap
                == old(vm).heap,
        },
{
    let va = match vm.pop() {
        Ok(v) => v,
        Err(e) => {
            return Err(e);
        },
    };
    let vb = match vm.pop() {
        Ok(v) => v,
        Err(e) => {
            return Err(e);
        },
    };
    match (va, vb) {
        (Value::String(a), Value::String(b)) => {
            let ghost av = a@;
            let ghost bv = b@;
            let joined = a.concat(b.as_str());
            let out = vm.push(Value::String(joined));
            proof {
                assert(final(vm).stack_view() =~= vals_view(
                    old(vm).stack@.drop_last().drop_last(),
                ).push(ValueView::Str(av + bv)));
            }
            out
        },
        _ => Err(VMError::ExpectedString),
    }
}

/// Whether the needle occurs at the given character position.
fn occurs_at(h: &String, needle: &String, i: usize) -> (r: bool)
    requires
        i + needle@.len() <= h@.len(),
    ensures
        r == occurs_at_spec(h@, needle@, i as int),
{
    let m = needle.as_str().unicode_len();
    let hn = h.as_str().unicode_len();
    let piece = h.as_str().substring_char(i, i + m);
    let owned = String::from_str(piece);
    let eq = owned.eq(needle);
    proof {
        if owned@ == needle@ {
            assert(h@.subrange(i as int, i + needle@.len() as int) == needle@);
        }
    }
    eq
}

/// Pops two strings and pushes whether the second occurs in the top one.
pub fn contains(vm: &mut VM) -> (r: Result<(), VMError>)
    requires
        old(vm).wf(),
    ensures
        natives_still(*old(vm), *final(vm)),
        old(vm).stack@.len() == 0 ==> r == Result::<(), VMError>::Err(VMError::StackEnded),
        old(vm).stack@.len() >= 2 ==> match (old(vm).stack@.last()@, old(vm).stack@[old(
            vm,
        ).stack@.len() - 2]@) {
            (ValueView::Str(a), ValueView::Str(b)) => r is Ok && final(vm).heap == old(vm).heap
                && final(vm).stack_view() == vals_view(old(vm).stack@.drop_last().drop_last()).push(
                ValueView::Boolean(str_contains_spec(a, b)),
            ),
            _ => (!(old(vm).stack@.last()@ is Pointer) && !(old(vm).stack@[old(vm).stack@.len()
                - 2]@ is Pointer)) ==> r == Result::<(), VMError>::Err(VMError::ExpectedString)
                && final(vm).stack@ == old(vm).stack@.drop_last().drop_last() && final(vm).heap
                == old(vm).heap,
        },
{
    let va = match vm.pop() {
        Ok(v) => v,
        Err(e) => {
            return Err(e);
        },
    };
    let vb = match vm.pop() {
        Ok(v) => v,
        Err(e) => {
            return Err(e);
        },
    };
    match (va, vb) {
        (Value::String(a), Value::String(b)) => {
            let n = a.as_str().unicode_len();
            let m = b.as_str().unicode_len();
            let mut found = false;
            if m == 0 {
                proof {
                    assert(a@.subrange(0, 0) =~= b@);
                    assert(occurs_at_spec(a@, b@, 0));
                }
                found = true;
            } else if m <= n {
                let mut i: usize = 0;
                while i <= n - m
                    invariant
                        1 <= m <= n,
                        n == a@.len(),
                        m == b@.len(),
                        i <= n - m + 1,
                        found ==> str_contains_spec(a@, b@),
                        !found ==> forall|p: int| p < i ==> !occurs_at_spec(a@, b@, p),
                    ensures
                        found ==> str_contains_spec(a@, b@),
                        !found ==> forall|p: int| p <= n - m ==> !occurs_at_spec(a@, b@, p),
                    decreases n - m - i + 1,
                {
                    if occurs_at(&a, &b, i) {
                        found = true;
                        break;
                    }
                    i = i + 1;
                }
            }
            proof {
                if !found {
                    assert forall|p: int| true implies !occurs_at_spec(a@, b@, p) by {
                        if occurs_at_spec(a@, b@, p) {
                            assert(p + b@.len() <= a@.len());
                        }
                    }
                }
            }
            let out = vm.push(Value::Boolean(found));
            proof {
                assert(final(vm).stack_view() =~= vals_view(
                    old(vm).stack@.drop_last().drop_last(),
                ).push(ValueView::Boolean(str_contains_spec(a@, b@))));
            }
            out
        },
        _ => Err(VMError::ExpectedString),
    }
}

/// Pops a string and pushes each of its characters as a one-character
/// string, first character deepest, and then the character count.
pub fn chars(vm: &mut VM) -> (r: Result<(), VMError>)
    requires
        old(vm).wf(),
    ensures
        natives_still(*old(vm), *final(vm)),
        old(vm).stack@.len() == 0 ==> r == Result::<(), VMError>::Err(VMError::StackEnded),
{
    let v = match vm.pop() {
        Ok(v) => v,
        Err(e) => {
            return Err(e);
        },
    };
    match v {
        Value::String(s) => {
            let n = s.as_str().unicode_len();
            let nu = n as u64;
            if nu > i64::MAX as u64 {
                return Err(VMError::CannotConvert(Value::String(s)));
            }
            let mut i: usize = 0;
            while i < n
                invariant
                    vm.wf(),
                    natives_still(*old(vm), *vm),
                    old(vm).stack@.len() >= 1,
                    n == s@.len(),
                    i <= n,
                decreases n - i,
            {
                let piece = String::from_str(s.as_str().substring_char(i, i + 1));
                vm.stack.push(Value::String(piece));
                i = i + 1;
            }
            vm.stack.push(Value::Number(nu as i64));
            Ok(())
        },
        _ => Err(VMError::ExpectedString),
    }
}

/// Pops a string and a separator and pushes the pieces between the
/// separator's occurrences, first piece deepest, then the piece count;
/// an empty separator leaves the string whole.
pub fn split(vm: &mut VM) -> (r: Result<(), VMError>)
    requires
        old(vm).wf(),
    ensures
        natives_still(*old(vm), *final(vm)),
        old(vm).stack@.len() == 0 ==> r == Result::<(), VMError>::Err(VMError::StackEnded),
{
    let va = match vm.pop() {
        Ok(v) => v,
        Err(e) => {
            return Err(e);
        },
    };
    let vb = match vm.pop() {
        Ok(v) => v,
        Err(e) => {
            return Err(e);
        },
    };
    match (va, vb) {
        (Value::String(a), Value::String(b)) => {
            let n = a.as_str().unicode_len();
            let m = b.as_str().unicode_len();
            let mut count: u64 = 0;
            if m == 0 || m > n {
                vm.stack.push(Value::String(a));
                vm.stack.push(Value::Number(1));
                return Ok(());
            }
            let mut start: usize = 0;
            let mut i: usize = 0;
            while i <= n - m
                invariant
                    vm.wf(),
                    natives_still(*old(vm), *vm),
                    old(vm).stack@.len() >= 2,
                    1 <= m <= n,
                    n == a@.len(),
                    m == b@.len(),
                    start <= i,
                    start <= n,
                    i <= n + 1,
                    count <= u64::MAX - 1,
                    count <= i,
                decreases n + 1 - i,
            {
                if occurs_at(&a, &b, i) {
                    let piece = String::from_str(a.as_str().substring_char(start, i));
                    vm.stack.push(Value::String(piece));
                    if count >= u64::MAX - 2 {
                        return Err(VMError::CannotConvert(Value::Null));
                    }
                    count = count + 1;
                    start = i + m;
                    i = i + m;
                } else {
                    i = i + 1;
                }
            }
            let tail = String::from_str(a.as_str().substring_char(start, n));
            vm.stack.push(Value::String(tail));
            count = count + 1;
            if count > i64::MAX as u64 {
                return Err(VMError::CannotConvert(Value::Null));
            }
            vm.stack.push(Value::Number(count as i64));
            Ok(())
        },
        _ => Err(VMError::ExpectedString),
    }
}

} // verus!
