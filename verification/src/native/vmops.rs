//! Introspection natives over the machine itself.
use crate::machine::{natives_still, vals_view, VMError, VM};
use crate::value::{Value, ValueView};
use vstd::prelude::*;

verus! {

/// Pops a block value and pushes that block's annotation text, or the
/// null value when it has none.
pub fn vm_get_annotation(vm: &mut VM) -> (r: Result<(), VMError>)
    requires
        old(vm).wf(),
        old(vm).scope_manager.scopes@.len() >= 1,
    ensures
        natives_still(*old(vm), *final(vm)),
        old(vm).stack@.len() == 0 ==> r == Result::<(), VMError>::Err(VMError::StackEnded),
        old(vm).stack@.len() > 0 ==> match old(vm).stack@.last()@ {
            ValueView::Block(name) => r is Ok && final(vm).heap == old(vm).heap && final(vm).stack_view() == vals_view(old(vm).stack@.drop_last()).push(
                if old(vm).scope_manager.scopes@.last().blocks.annotations.as_map().contains_key(
                    name,
                ) {
                    ValueView::Str(
                        old(vm).scope_manager.scopes@.last().blocks.annotations.as_map().index(name),
                    )
                } else {
                    ValueView::Null
                },
            ),
            _ => !(old(vm).stack@.last()@ is Pointer) ==> r == Result::<(), VMError>::Err(
                VMError::ExpectedBlock,
            ),
        },
{
    let v = match vm.pop() {
        Ok(v) => v,
        Err(e) => {
            return Err(e);
        },
    };
    match v {
        Value::Block(name) => {
            proof {
                assert(vm.scope_manager.scopes@[vm.scope_manager.scopes@.len() - 1].wf());
            }
            let val = match vm.scope_manager.blocks().annotations.get(&name) {
                Some(text) => Value::String(text.clone()),
                None => Value::Null,
            };
            let ghost vv = val@;
            let out = vm.push(val);
            proof {
                assert(final(vm).stack_view() =~= vals_view(old(vm).stack@.drop_last()).push(vv));
            }
            out
        },
        _ => Err(VMError::ExpectedBlock),
    }
}

} // verus!
