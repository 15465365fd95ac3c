//! The built-in operations of the machine and their registry.
use crate::blocks::{NativeFn, NativeGroup};
use crate::machine::{natives_still, run_frame, VMError, VM};
use vstd::prelude::*;

pub mod base;
pub mod exceptions;
pub mod strings;
pub mod types;
pub mod vmops;

verus! {

/// Runs one native handler against the machine; every handler but the
/// re-entrant two leaves the scopes and call stack alone.
pub fn dispatch(vm: &mut VM, f: NativeFn, fuel: u64) -> (r: Result<(), VMError>)
    requires
        old(vm).wf(),
        old(vm).scope_manager.scopes@.len() >= 1,
    ensures
        run_frame(*old(vm), *final(vm)),
        !(f is Call) && !(f is TryException) ==> natives_still(*old(vm), *final(vm)),
    decreases fuel, 1int,
{
    match f {
        NativeFn::DropValue => base::drop_value(vm),
        NativeFn::PeekValueAt => base::peek_value_at(vm),
        NativeFn::DropValueAt => base::drop_value_at(vm),
        NativeFn::Swap => base::swap(vm),
        NativeFn::Dup => base::dup(vm),
        NativeFn::ClearStack => base::clear_stack(vm),
        NativeFn::Plus => base::plus(vm),
        NativeFn::Mul => base::mul(vm),
        NativeFn::Div => base::div(vm),
        NativeFn::Subst => base::subst(vm),
        NativeFn::Neg => base::neg(vm),
        NativeFn::Or => base::or(vm),
        NativeFn::And => base::and(vm),
        NativeFn::Gt => base::gt(vm),
        NativeFn::Lt => base::lt(vm),
        NativeFn::Gte => base::gte(vm),
        NativeFn::Lte => base::lte(vm),
        NativeFn::Pow => base::pow(vm),
        NativeFn::Nop => base::nop(vm),
        NativeFn::Root => base::root(vm),
        NativeFn::Equal => base::equal(vm),
        NativeFn::Call => base::call(vm, fuel),
        NativeFn::BlockExists => base::block_exists(vm),
        NativeFn::Deref => base::deref(vm),
        NativeFn::SetRef => base::set_ref(vm),
        NativeFn::Alloc => base::alloc_native(vm),
        NativeFn::Realloc => base::realloc(vm),
        NativeFn::Free => base::free(vm),
        NativeFn::IntoException => exceptions::into_exception(vm),
        NativeFn::UnwrapException => exceptions::unwrap_exception(vm),
        NativeFn::TryException => exceptions::try_exception(vm, fuel),
        NativeFn::ThrowException => exceptions::throw_exception(vm),
        NativeFn::IsException => exceptions::is_exception(vm),
        NativeFn::IntoString => types::into_string(vm),
        NativeFn::IntoNumber => types::into_number(vm),
        NativeFn::IntoPtr => types::into_ptr(vm),
        NativeFn::IsPointer => types::is_pointer(vm),
        NativeFn::IsNumber => types::is_number(vm),
        NativeFn::IsBlock => types::is_block(vm),
        NativeFn::IsBool => types::is_bool(vm),
        NativeFn::IsString => types::is_string(vm),
        NativeFn::IsNull => types::is_null(vm),
        NativeFn::Strlen => strings::strlen(vm),
        NativeFn::Concat => strings::concat(vm),
        NativeFn::Split => strings::split(vm),
        NativeFn::Contains => strings::contains(vm),
        NativeFn::Chars => strings::chars(vm),
        NativeFn::VmGetAnnotation => vmops::vm_get_annotation(vm),
    }
}

/// The names and operations of the baseline group, in registry order.
pub open spec fn baseline_entries() -> Seq<(Seq<char>, NativeFn)> {
    seq![
        ("drop"@, NativeFn::DropValue),
        ("peek"@, NativeFn::PeekValueAt),
        ("drop_at"@, NativeFn::DropValueAt),
        ("swap"@, NativeFn::Swap),
        ("dup"@, NativeFn::Dup),
        ("clear"@, NativeFn::ClearStack),
        ("+"@, NativeFn::Plus),
        ("*"@, NativeFn::Mul),
        ("/"@, NativeFn::Div),
        ("-"@, NativeFn::Subst),
        ("!"@, NativeFn::Neg),
        ("or"@, NativeFn::Or),
        ("and"@, NativeFn::And),
        (">"@, NativeFn::Gt),
        ("<"@, NativeFn::Lt),
        (">="@, NativeFn::Gte),
        ("<="@, NativeFn::Lte),
        ("pow"@, NativeFn::Pow),
        ("nop"@, NativeFn::Nop),
        ("root"@, NativeFn::Root),
        ("=="@, NativeFn::Equal),
        ("call"@, NativeFn::Call),
        ("block_exists?"@, NativeFn::BlockExists),
        ("@"@, NativeFn::Deref),
        ("="@, NativeFn::SetRef),
        ("alloc"@, NativeFn::Alloc),
        ("unsafe_realloc"@, NativeFn::Realloc),
        ("unsafe_free"@, NativeFn::Free),
        ("into_exception"@, NativeFn::IntoException),
        ("unwrap_exception"@, NativeFn::UnwrapException),
        ("try"@, NativeFn::TryException),
        ("throw"@, NativeFn::ThrowException),
        ("is_exception"@, NativeFn::IsException),
        ("into_string"@, NativeFn::IntoString),
        ("into_number"@, NativeFn::IntoNumber),
        ("unsafe_into_ptr"@, NativeFn::IntoPtr),
        ("is_pointer"@, NativeFn::IsPointer),
        ("is_number"@, NativeFn::IsNumber),
        ("is_block"@, NativeFn::IsBlock),
        ("is_bool"@, NativeFn::IsBool),
        ("is_string"@, NativeFn::IsString),
        ("is_null"@, NativeFn::IsNull),
        ("string.len"@, NativeFn::Strlen),
        ("string.concat"@, NativeFn::Concat),
        ("string.split"@, NativeFn::Split),
        ("string.contains"@, NativeFn::Contains),
        ("string.chars"@, NativeFn::Chars),
        ("ena.vm.get_annotation"@, NativeFn::VmGetAnnotation),
    ]
}

/// The baseline names are pairwise distinct, and each looks up to its
/// operation.
#[verifier::rlimit(100)]
#[verifier::spinoff_prover]
proof fn lemma_baseline_map()
    ensures
        crate::names::distinct_keys(baseline_entries()),
        crate::names::assoc_map(baseline_entries()).contains_key("drop"@)
            && crate::names::assoc_map(baseline_entries())["drop"@] == NativeFn::DropValue,
        crate::names::assoc_map(baseline_entries()).contains_key("peek"@)
            && crate::names::assoc_map(baseline_entries())["peek"@] == NativeFn::PeekValueAt,
        crate::names::assoc_map(baseline_entries()).contains_key("drop_at"@)
            && crate::names::assoc_map(baseline_entries())["drop_at"@] == NativeFn::DropValueAt,
        crate::names::assoc_map(baseline_entries()).contains_key("swap"@)
            && crate::names::assoc_map(baseline_entries())["swap"@] == NativeFn::Swap,
        crate::names::assoc_map(baseline_entries()).contains_key("dup"@)
            && crate::names::assoc_map(baseline_entries())["dup"@] == NativeFn::Dup,
        crate::names::assoc_map(baseline_entries()).contains_key("clear"@)
            && crate::names::assoc_map(baseline_entries())["clear"@] == NativeFn::ClearStack,
        crate::names::assoc_map(baseline_entries()).contains_key("+"@)
            && crate::names::assoc_map(baseline_entries())["+"@] == NativeFn::Plus,
        crate::names::assoc_map(baseline_entries()).contains_key("*"@)
            && crate::names::assoc_map(baseline_entries())["*"@] == NativeFn::Mul,
        crate::names::assoc_map(baseline_entries()).contains_key("/"@)
            && crate::names::assoc_map(baseline_entries())["/"@] == NativeFn::Div,
        crate::names::assoc_map(baseline_entries()).contains_key("-"@)
            && crate::names::assoc_map(baseline_entries())["-"@] == NativeFn::Subst,
        crate::names::assoc_map(baseline_entries()).contains_key("!"@)
            && crate::names::assoc_map(baseline_entries())["!"@] == NativeFn::Neg,
        crate::names::assoc_map(baseline_entries()).contains_key("or"@)
            && crate::names::assoc_map(baseline_entries())["or"@] == NativeFn::Or,
        crate::names::assoc_map(baseline_entries()).contains_key("and"@)
            && crate::names::assoc_map(baseline_entries())["and"@] == NativeFn::And,
        crate::names::assoc_map(baseline_entries()).contains_key(">"@)
            && crate::names::assoc_map(baseline_entries())[">"@] == NativeFn::Gt,
        crate::names::assoc_map(baseline_entries()).contains_key("<"@)
            && crate::names::assoc_map(baseline_entries())["<"@] == NativeFn::Lt,
        crate::names::assoc_map(baseline_entries()).contains_key(">="@)
            && crate::names::assoc_map(baseline_entries())[">="@] == NativeFn::Gte,
        crate::names::assoc_map(baseline_entries()).contains_key("<="@)
            && crate::names::assoc_map(baseline_entries())["<="@] == NativeFn::Lte,
        crate::names::assoc_map(baseline_entries()).contains_key("pow"@)
            && crate::names::assoc_map(baseline_entries())["pow"@] == NativeFn::Pow,
        crate::names::assoc_map(baseline_entries()).contains_key("nop"@)
            && crate::names::assoc_map(baseline_entries())["nop"@] == NativeFn::Nop,
        crate::names::assoc_map(baseline_entries()).contains_key("root"@)
            && crate::names::assoc_map(baseline_entries())["root"@] == NativeFn::Root,
        crate::names::assoc_map(baseline_entries()).contains_key("=="@)
            && crate::names::assoc_map(baseline_entries())["=="@] == NativeFn::Equal,
        crate::names::assoc_map(baseline_entries()).contains_key("call"@)
            && crate::names::assoc_map(baseline_entries())["call"@] == NativeFn::Call,
        crate::names::assoc_map(baseline_entries()).contains_key("block_exists?"@)
            && crate::names::assoc_map(baseline_entries())["block_exists?"@] == NativeFn::BlockExists,
        crate::names::assoc_map(baseline_entries()).contains_key("@"@)
            && crate::names::assoc_map(baseline_entries())["@"@] == NativeFn::Deref,
        crate::names::assoc_map(baseline_entries()).contains_key("="@)
            && crate::names::assoc_map(baseline_entries())["="@] == NativeFn::SetRef,
        crate::names::assoc_map(baseline_entries()).contains_key("alloc"@)
            && crate::names::assoc_map(baseline_entries())["alloc"@] == NativeFn::Alloc,
        crate::names::assoc_map(baseline_entries()).contains_key("unsafe_realloc"@)
            && crate::names::assoc_map(baseline_entries())["unsafe_realloc"@] == NativeFn::Realloc,
        crate::names::assoc_map(baseline_entries()).contains_key("unsafe_free"@)
            && crate::names::assoc_map(baseline_entries())["unsafe_free"@] == NativeFn::Free,
        crate::names::assoc_map(baseline_entries()).contains_key("into_exception"@)
            && crate::names::assoc_map(baseline_entries())["into_exception"@] == NativeFn::IntoException,
        crate::names::assoc_map(baseline_entries()).contains_key("unwrap_exception"@)
            && crate::names::assoc_map(baseline_entries())["unwrap_exception"@] == NativeFn::UnwrapException,
        crate::names::assoc_map(baseline_entries()).contains_key("try"@)
            && crate::names::assoc_map(baseline_entries())["try"@] == NativeFn::TryException,
        crate::names::assoc_map(baseline_entries()).contains_key("throw"@)
            && crate::names::assoc_map(baseline_entries())["throw"@] == NativeFn::ThrowException,
        crate::names::assoc_map(baseline_entries()).contains_key("is_exception"@)
            && crate::names::assoc_map(baseline_entries())["is_exception"@] == NativeFn::IsException,
        crate::names::assoc_map(baseline_entries()).contains_key("into_string"@)
            && crate::names::assoc_map(baseline_entries())["into_string"@] == NativeFn::IntoString,
        crate::names::assoc_map(baseline_entries()).contains_key("into_number"@)
            && crate::names::assoc_map(baseline_entries())["into_number"@] == NativeFn::IntoNumber,
        crate::names::assoc_map(baseline_entries()).contains_key("unsafe_into_ptr"@)
            && crate::names::assoc_map(baseline_entries())["unsafe_into_ptr"@] == NativeFn::IntoPtr,
        crate::names::assoc_map(baseline_entries()).contains_key("is_pointer"@)
            && crate::names::assoc_map(baseline_entries())["is_pointer"@] == NativeFn::IsPointer,
        crate::names::assoc_map(baseline_entries()).contains_key("is_number"@)
            && crate::names::assoc_map(baseline_entries())["is_number"@] == NativeFn::IsNumber,
        crate::names::assoc_map(baseline_entries()).contains_key("is_block"@)
            && crate::names::assoc_map(baseline_entries())["is_block"@] == NativeFn::IsBlock,
        crate::names::assoc_map(baseline_entries()).contains_key("is_bool"@)
            && crate::names::assoc_map(baseline_entries())["is_bool"@] == NativeFn::IsBool,
        crate::names::assoc_map(baseline_entries()).contains_key("is_string"@)
            && crate::names::assoc_map(baseline_entries())["is_string"@] == NativeFn::IsString,
        crate::names::assoc_map(baseline_entries()).contains_key("is_null"@)
            && crate::names::assoc_map(baseline_entries())["is_null"@] == NativeFn::IsNull,
        crate::names::assoc_map(baseline_entries()).contains_key("string.len"@)
            && crate::names::assoc_map(baseline_entries())["string.len"@] == NativeFn::Strlen,
        crate::names::assoc_map(baseline_entries()).contains_key("string.concat"@)
            && crate::names::assoc_map(baseline_entries())["string.concat"@] == NativeFn::Concat,
        crate::names::assoc_map(baseline_entries()).contains_key("string.split"@)
            && crate::names::assoc_map(baseline_entries())["string.split"@] == NativeFn::Split,
        crate::names::assoc_map(baseline_entries()).contains_key("string.contains"@)
            && crate::names::assoc_map(baseline_entries())["string.contains"@] == NativeFn::Contains,
        crate::names::assoc_map(baseline_entries()).contains_key("string.chars"@)
            && crate::names::assoc_map(baseline_entries())["string.chars"@] == NativeFn::Chars,
        crate::names::assoc_map(baseline_entries()).contains_key("ena.vm.get_annotation"@)
            && crate::names::assoc_map(baseline_entries())["ena.vm.get_annotation"@] == NativeFn::VmGetAnnotation,
{
    reveal_strlit("drop");
    reveal_strlit("peek");
    reveal_strlit("drop_at");
    reveal_strlit("swap");
    reveal_strlit("dup");
    reveal_strlit("clear");
    reveal_strlit("+");
    reveal_strlit("*");
    reveal_strlit("/");
    reveal_strlit("-");
    reveal_strlit("!");
    reveal_strlit("or");
    reveal_strlit("and");
    reveal_strlit(">");
    reveal_strlit("<");
    reveal_strlit(">=");
    reveal_strlit("<=");
    reveal_strlit("pow");
    reveal_strlit("nop");
    reveal_strlit("root");
    reveal_strlit("==");
    reveal_strlit("call");
    reveal_strlit("block_exists?");
    reveal_strlit("@");
    reveal_strlit("=");
    reveal_strlit("alloc");
    reveal_strlit("unsafe_realloc");
    reveal_strlit("unsafe_free");
    reveal_strlit("into_exception");
    reveal_strlit("unwrap_exception");
    reveal_strlit("try");
    reveal_strlit("throw");
    reveal_strlit("is_exception");
    reveal_strlit("into_string");
    reveal_strlit("into_number");
    reveal_strlit("unsafe_into_ptr");
    reveal_strlit("is_pointer");
    reveal_strlit("is_number");
    reveal_strlit("is_block");
    reveal_strlit("is_bool");
    reveal_strlit("is_string");
    reveal_strlit("is_null");
    reveal_strlit("string.len");
    reveal_strlit("string.concat");
    reveal_strlit("string.split");
    reveal_strlit("string.contains");
    reveal_strlit("string.chars");
    reveal_strlit("ena.vm.get_annotation");
    assert(baseline_entries()[0] == ("drop"@, NativeFn::DropValue));
    assert(baseline_entries()[1] == ("peek"@, NativeFn::PeekValueAt));
    assert(baseline_entries()[2] == ("drop_at"@, NativeFn::DropValueAt));
    assert(baseline_entries()[3] == ("swap"@, NativeFn::Swap));
    assert(baseline_entries()[4] == ("dup"@, NativeFn::Dup));
    assert(baseline_entries()[5] == ("clear"@, NativeFn::ClearStack));
    assert(baseline_entries()[6] == ("+"@, NativeFn::Plus));
    assert(baseline_entries()[7] == ("*"@, NativeFn::Mul));
    assert(baseline_entries()[8] == ("/"@, NativeFn::Div));
    assert(baseline_entries()[9] == ("-"@, NativeFn::Subst));
    assert(baseline_entries()[10] == ("!"@, NativeFn::Neg));
    assert(baseline_entries()[11] == ("or"@, NativeFn::Or));
    assert(baseline_entries()[12] == ("and"@, NativeFn::And));
    assert(baseline_entries()[13] == (">"@, NativeFn::Gt));
    assert(baseline_entries()[14] == ("<"@, NativeFn::Lt));
    assert(baseline_entries()[15] == (">="@, NativeFn::Gte));
    assert(baseline_entries()[16] == ("<="@, NativeFn::Lte));
    assert(baseline_entries()[17] == ("pow"@, NativeFn::Pow));
    assert(baseline_entries()[18] == ("nop"@, NativeFn::Nop));
    assert(baseline_entries()[19] == ("root"@, NativeFn::Root));
    assert(baseline_entries()[20] == ("=="@, NativeFn::Equal));
    assert(baseline_entries()[21] == ("call"@, NativeFn::Call));
    assert(baseline_entries()[22] == ("block_exists?"@, NativeFn::BlockExists));
    assert(baseline_entries()[23] == ("@"@, NativeFn::Deref));
    assert(baseline_entries()[24] == ("="@, NativeFn::SetRef));
    assert(baseline_entries()[25] == ("alloc"@, NativeFn::Alloc));
    assert(baseline_entries()[26] == ("unsafe_realloc"@, NativeFn::Realloc));
    assert(baseline_entries()[27] == ("unsafe_free"@, NativeFn::Free));
    assert(baseline_entries()[28] == ("into_exception"@, NativeFn::IntoException));
    assert(baseline_entries()[29] == ("unwrap_exception"@, NativeFn::UnwrapException));
    assert(baseline_entries()[30] == ("try"@, NativeFn::TryException));
    assert(baseline_entries()[31] == ("throw"@, NativeFn::ThrowException));
    assert(baseline_entries()[32] == ("is_exception"@, NativeFn::IsException));
    assert(baseline_entries()[33] == ("into_string"@, NativeFn::IntoString));
    assert(baseline_entries()[34] == ("into_number"@, NativeFn::IntoNumber));
    assert(baseline_entries()[35] == ("unsafe_into_ptr"@, NativeFn::IntoPtr));
    assert(baseline_entries()[36] == ("is_pointer"@, NativeFn::IsPointer));
    assert(baseline_entries()[37] == ("is_number"@, NativeFn::IsNumber));
    assert(baseline_entries()[38] == ("is_block"@, NativeFn::IsBlock));
    assert(baseline_entries()[39] == ("is_bool"@, NativeFn::IsBool));
    assert(baseline_entries()[40] == ("is_string"@, NativeFn::IsString));
    assert(baseline_entries()[41] == ("is_null"@, NativeFn::IsNull));
    assert(baseline_entries()[42] == ("string.len"@, NativeFn::Strlen));
    assert(baseline_entries()[43] == ("string.concat"@, NativeFn::Concat));
    assert(baseline_entries()[44] == ("string.split"@, NativeFn::Split));
    assert(baseline_entries()[45] == ("string.contains"@, NativeFn::Contains));
    assert(baseline_entries()[46] == ("string.chars"@, NativeFn::Chars));
    assert(baseline_entries()[47] == ("ena.vm.get_annotation"@, NativeFn::VmGetAnnotation));
    assert(baseline_entries().len() == 48);
    reveal_with_fuel(crate::names::no_dup_upto, 50);
    reveal_with_fuel(crate::names::key_in_upto, 50);
    assert("drop"@.len() == 4);
    assert("peek"@.len() == 4);
    assert("drop_at"@.len() == 7);
    assert("swap"@.len() == 4);
    assert("dup"@.len() == 3);
    assert("clear"@.len() == 5);
    assert("+"@.len() == 1);
    assert("*"@.len() == 1);
    assert("/"@.len() == 1);
    assert("-"@.len() == 1);
    assert("!"@.len() == 1);
    assert("or"@.len() == 2);
    assert("and"@.len() == 3);
    assert(">"@.len() == 1);
    assert("<"@.len() == 1);
    assert(">="@.len() == 2);
    assert("<="@.len() == 2);
    assert("pow"@.len() == 3);
    assert("nop"@.len() == 3);
    assert("root"@.len() == 4);
    assert("=="@.len() == 2);
    assert("call"@.len() == 4);
    assert("block_exists?"@.len() == 13);
    assert("@"@.len() == 1);
    assert("="@.len() == 1);
    assert("alloc"@.len() == 5);
    assert("unsafe_realloc"@.len() == 14);
    assert("unsafe_free"@.len() == 11);
    assert("into_exception"@.len() == 14);
    assert("unwrap_exception"@.len() == 16);
    assert("try"@.len() == 3);
    assert("throw"@.len() == 5);
    assert("is_exception"@.len() == 12);
    assert("into_string"@.len() == 11);
    assert("into_number"@.len() == 11);
    assert("unsafe_into_ptr"@.len() == 15);
    assert("is_pointer"@.len() == 10);
    assert("is_number"@.len() == 9);
    assert("is_block"@.len() == 8);
    assert("is_bool"@.len() == 7);
    assert("is_string"@.len() == 9);
    assert("is_null"@.len() == 7);
    assert("string.len"@.len() == 10);
    assert("string.concat"@.len() == 13);
    assert("string.split"@.len() == 12);
    assert("string.contains"@.len() == 15);
    assert("string.chars"@.len() == 12);
    assert("ena.vm.get_annotation"@.len() == 21);
    assert("drop"@ != "peek"@) by {
        assert("drop"@[0] == 'd' && "peek"@[0] == 'p');
    }
    assert("drop"@ != "swap"@) by {
        assert("drop"@[0] == 'd' && "swap"@[0] == 's');
    }
    assert("drop"@ != "root"@) by {
        assert("drop"@[0] == 'd' && "root"@[0] == 'r');
    }
    assert("drop"@ != "call"@) by {
        assert("drop"@[0] == 'd' && "call"@[0] == 'c');
    }
    assert("peek"@ != "swap"@) by {
        assert("peek"@[0] == 'p' && "swap"@[0] == 's');
    }
    assert("peek"@ != "root"@) by {
        assert("peek"@[0] == 'p' && "root"@[0] == 'r');
    }
    assert("peek"@ != "call"@) by {
        assert("peek"@[0] == 'p' && "call"@[0] == 'c');
    }
    assert("drop_at"@ != "is_bool"@) by {
        assert("drop_at"@[0] == 'd' && "is_bool"@[0] == 'i');
    }
    assert("drop_at"@ != "is_null"@) by {
        assert("drop_at"@[0] == 'd' && "is_null"@[0] == 'i');
    }
    assert("swap"@ != "root"@) by {
        assert("swap"@[0] == 's' && "root"@[0] == 'r');
    }
    assert("swap"@ != "call"@) by {
        assert("swap"@[0] == 's' && "call"@[0] == 'c');
    }
    assert("dup"@ != "and"@) by {
        assert("dup"@[0] == 'd' && "and"@[0] == 'a');
    }
    assert("dup"@ != "pow"@) by {
        assert("dup"@[0] == 'd' && "pow"@[0] == 'p');
    }
    assert("dup"@ != "nop"@) by {
        assert("dup"@[0] == 'd' && "nop"@[0] == 'n');
    }
    assert("dup"@ != "try"@) by {
        assert("dup"@[0] == 'd' && "try"@[0] == 't');
    }
    assert("clear"@ != "alloc"@) by {
        assert("clear"@[0] == 'c' && "alloc"@[0] == 'a');
    }
    assert("clear"@ != "throw"@) by {
        assert("clear"@[0] == 'c' && "throw"@[0] == 't');
    }
    assert("+"@ != "*"@) by {
        assert("+"@[0] == '+' && "*"@[0] == '*');
    }
    assert("+"@ != "/"@) by {
        assert("+"@[0] == '+' && "/"@[0] == '/');
    }
    assert("+"@ != "-"@) by {
        assert("+"@[0] == '+' && "-"@[0] == '-');
    }
    assert("+"@ != "!"@) by {
        assert("+"@[0] == '+' && "!"@[0] == '!');
    }
    assert("+"@ != ">"@) by {
        assert("+"@[0] == '+' && ">"@[0] == '>');
    }
    assert("+"@ != "<"@) by {
        assert("+"@[0] == '+' && "<"@[0] == '<');
    }
    assert("+"@ != "@"@) by {
        assert("+"@[0] == '+' && "@"@[0] == '@');
    }
    assert("+"@ != "="@) by {
        assert("+"@[0] == '+' && "="@[0] == '=');
    }
    assert("*"@ != "/"@) by {
        assert("*"@[0] == '*' && "/"@[0] == '/');
    }
    assert("*"@ != "-"@) by {
        assert("*"@[0] == '*' && "-"@[0] == '-');
    }
    assert("*"@ != "!"@) by {
        assert("*"@[0] == '*' && "!"@[0] == '!');
    }
    assert("*"@ != ">"@) by {
        assert("*"@[0] == '*' && ">"@[0] == '>');
    }
    assert("*"@ != "<"@) by {
        assert("*"@[0] == '*' && "<"@[0] == '<');
    }
    assert("*"@ != "@"@) by {
        assert("*"@[0] == '*' && "@"@[0] == '@');
    }
    assert("*"@ != "="@) by {
        assert("*"@[0] == '*' && "="@[0] == '=');
    }
    assert("/"@ != "-"@) by {
        assert("/"@[0] == '/' && "-"@[0] == '-');
    }
    assert("/"@ != "!"@) by {
        assert("/"@[0] == '/' && "!"@[0] == '!');
    }
    assert("/"@ != ">"@) by {
        assert("/"@[0] == '/' && ">"@[0] == '>');
    }
    assert("/"@ != "<"@) by {
        assert("/"@[0] == '/' && "<"@[0] == '<');
    }
    assert("/"@ != "@"@) by {
        assert("/"@[0] == '/' && "@"@[0] == '@');
    }
    assert("/"@ != "="@) by {
        assert("/"@[0] == '/' && "="@[0] == '=');
    }
    assert("-"@ != "!"@) by {
        assert("-"@[0] == '-' && "!"@[0] == '!');
    }
    assert("-"@ != ">"@) by {
        assert("-"@[0] == '-' && ">"@[0] == '>');
    }
    assert("-"@ != "<"@) by {
        assert("-"@[0] == '-' && "<"@[0] == '<');
    }
    assert("-"@ != "@"@) by {
        assert("-"@[0] == '-' && "@"@[0] == '@');
    }
    assert("-"@ != "="@) by {
        assert("-"@[0] == '-' && "="@[0] == '=');
    }
    assert("!"@ != ">"@) by {
        assert("!"@[0] == '!' && ">"@[0] == '>');
    }
    assert("!"@ != "<"@) by {
        assert("!"@[0] == '!' && "<"@[0] == '<');
    }
    assert("!"@ != "@"@) by {
        assert("!"@[0] == '!' && "@"@[0] == '@');
    }
    assert("!"@ != "="@) by {
        assert("!"@[0] == '!' && "="@[0] == '=');
    }
    assert("or"@ != ">="@) by {
        assert("or"@[0] == 'o' && ">="@[0] == '>');
    }
    assert("or"@ != "<="@) by {
        assert("or"@[0] == 'o' && "<="@[0] == '<');
    }
    assert("or"@ != "=="@) by {
        assert("or"@[0] == 'o' && "=="@[0] == '=');
    }
    assert("and"@ != "pow"@) by {
        assert("and"@[0] == 'a' && "pow"@[0] == 'p');
    }
    assert("and"@ != "nop"@) by {
        assert("and"@[0] == 'a' && "nop"@[0] == 'n');
    }
    assert("and"@ != "try"@) by {
        assert("and"@[0] == 'a' && "try"@[0] == 't');
    }
    assert(">"@ != "<"@) by {
        assert(">"@[0] == '>' && "<"@[0] == '<');
    }
    assert(">"@ != "@"@) by {
        assert(">"@[0] == '>' && "@"@[0] == '@');
    }
    assert(">"@ != "="@) by {
        assert(">"@[0] == '>' && "="@[0] == '=');
    }
    assert("<"@ != "@"@) by {
        assert("<"@[0] == '<' && "@"@[0] == '@');
    }
    assert("<"@ != "="@) by {
        assert("<"@[0] == '<' && "="@[0] == '=');
    }
    assert(">="@ != "<="@) by {
        assert(">="@[0] == '>' && "<="@[0] == '<');
    }
    assert(">="@ != "=="@) by {
        assert(">="@[0] == '>' && "=="@[0] == '=');
    }
    assert("<="@ != "=="@) by {
        assert("<="@[0] == '<' && "=="@[0] == '=');
    }
    assert("pow"@ != "nop"@) by {
        assert("pow"@[0] == 'p' && "nop"@[0] == 'n');
    }
    assert("pow"@ != "try"@) by {
        assert("pow"@[0] == 'p' && "try"@[0] == 't');
    }
    assert("nop"@ != "try"@) by {
        assert("nop"@[0] == 'n' && "try"@[0] == 't');
    }
    assert("root"@ != "call"@) by {
        assert("root"@[0] == 'r' && "call"@[0] == 'c');
    }
    assert("block_exists?"@ != "string.concat"@) by {
        assert("block_exists?"@[0] == 'b' && "string.concat"@[0] == 's');
    }
    assert("@"@ != "="@) by {
        assert("@"@[0] == '@' && "="@[0] == '=');
    }
    assert("alloc"@ != "throw"@) by {
        assert("alloc"@[0] == 'a' && "throw"@[0] == 't');
    }
    assert("unsafe_realloc"@ != "into_exception"@) by {
        assert("unsafe_realloc"@[0] == 'u' && "into_exception"@[0] == 'i');
    }
    assert("unsafe_free"@ != "into_string"@) by {
        assert("unsafe_free"@[0] == 'u' && "into_string"@[0] == 'i');
    }
    assert("unsafe_free"@ != "into_number"@) by {
        assert("unsafe_free"@[0] == 'u' && "into_number"@[0] == 'i');
    }
    assert("is_exception"@ != "string.split"@) by {
        assert("is_exception"@[0] == 'i' && "string.split"@[0] == 's');
    }
    assert("is_exception"@ != "string.chars"@) by {
        assert("is_exception"@[0] == 'i' && "string.chars"@[0] == 's');
    }
    assert("into_string"@ != "into_number"@) by {
        assert("into_string"@[5] == 's' && "into_number"@[5] == 'n');
    }
    assert("unsafe_into_ptr"@ != "string.contains"@) by {
        assert("unsafe_into_ptr"@[0] == 'u' && "string.contains"@[0] == 's');
    }
    assert("is_pointer"@ != "string.len"@) by {
        assert("is_pointer"@[0] == 'i' && "string.len"@[0] == 's');
    }
    assert("is_number"@ != "is_string"@) by {
        assert("is_number"@[3] == 'n' && "is_string"@[3] == 's');
    }
    assert("is_bool"@ != "is_null"@) by {
        assert("is_bool"@[3] == 'b' && "is_null"@[3] == 'n');
    }
    assert("string.split"@ != "string.chars"@) by {
        assert("string.split"@[7] == 's' && "string.chars"@[7] == 'c');
    }
    assert(crate::names::no_dup_upto(baseline_entries(), 48));
    crate::names::lemma_no_dup_distinct(baseline_entries());
    crate::names::lemma_assoc_map_index(baseline_entries(), 0);
    crate::names::lemma_assoc_map_index(baseline_entries(), 1);
    crate::names::lemma_assoc_map_index(baseline_entries(), 2);
    crate::names::lemma_assoc_map_index(baseline_entries(), 3);
    crate::names::lemma_assoc_map_index(baseline_entries(), 4);
    crate::names::lemma_assoc_map_index(baseline_entries(), 5);
    crate::names::lemma_assoc_map_index(baseline_entries(), 6);
    crate::names::lemma_assoc_map_index(baseline_entries(), 7);
    crate::names::lemma_assoc_map_index(baseline_entries(), 8);
    crate::names::lemma_assoc_map_index(baseline_entries(), 9);
    crate::names::lemma_assoc_map_index(baseline_entries(), 10);
    crate::names::lemma_assoc_map_index(baseline_entries(), 11);
    crate::names::lemma_assoc_map_index(baseline_entries(), 12);
    crate::names::lemma_assoc_map_index(baseline_entries(), 13);
    crate::names::lemma_assoc_map_index(baseline_entries(), 14);
    crate::names::lemma_assoc_map_index(baseline_entries(), 15);
    crate::names::lemma_assoc_map_index(baseline_entries(), 16);
    crate::names::lemma_assoc_map_index(baseline_entries(), 17);
    crate::names::lemma_assoc_map_index(baseline_entries(), 18);
    crate::names::lemma_assoc_map_index(baseline_entries(), 19);
    crate::names::lemma_assoc_map_index(baseline_entries(), 20);
    crate::names::lemma_assoc_map_index(baseline_entries(), 21);
    crate::names::lemma_assoc_map_index(baseline_entries(), 22);
    crate::names::lemma_assoc_map_index(baseline_entries(), 23);
    crate::names::lemma_assoc_map_index(baseline_entries(), 24);
    crate::names::lemma_assoc_map_index(baseline_entries(), 25);
    crate::names::lemma_assoc_map_index(baseline_entries(), 26);
    crate::names::lemma_assoc_map_index(baseline_entries(), 27);
    crate::names::lemma_assoc_map_index(baseline_entries(), 28);
    crate::names::lemma_assoc_map_index(baseline_entries(), 29);
    crate::names::lemma_assoc_map_index(baseline_entries(), 30);
    crate::names::lemma_assoc_map_index(baseline_entries(), 31);
    crate::names::lemma_assoc_map_index(baseline_entries(), 32);
    crate::names::lemma_assoc_map_index(baseline_entries(), 33);
    crate::names::lemma_assoc_map_index(baseline_entries(), 34);
    crate::names::lemma_assoc_map_index(baseline_entries(), 35);
    crate::names::lemma_assoc_map_index(baseline_entries(), 36);
    crate::names::lemma_assoc_map_index(baseline_entries(), 37);
    crate::names::lemma_assoc_map_index(baseline_entries(), 38);
    crate::names::lemma_assoc_map_index(baseline_entries(), 39);
    crate::names::lemma_assoc_map_index(baseline_entries(), 40);
    crate::names::lemma_assoc_map_index(baseline_entries(), 41);
    crate::names::lemma_assoc_map_index(baseline_entries(), 42);
    crate::names::lemma_assoc_map_index(baseline_entries(), 43);
    crate::names::lemma_assoc_map_index(baseline_entries(), 44);
    crate::names::lemma_assoc_map_index(baseline_entries(), 45);
    crate::names::lemma_assoc_map_index(baseline_entries(), 46);
    crate::names::lemma_assoc_map_index(baseline_entries(), 47);
}

/// The baseline native group, under the names programs call: each
/// listed name is registered to its operation.
#[verifier::rlimit(100)]
#[verifier::spinoff_prover]
pub fn group() -> (r: NativeGroup)
    ensures
        r.natives.wf(),
        r.natives.as_map().contains_key("drop"@) && r.natives.as_map()["drop"@]
            == NativeFn::DropValue,
        r.natives.as_map().contains_key("peek"@) && r.natives.as_map()["peek"@]
            == NativeFn::PeekValueAt,
        r.natives.as_map().contains_key("drop_at"@) && r.natives.as_map()["drop_at"@]
            == NativeFn::DropValueAt,
        r.natives.as_map().contains_key("swap"@) && r.natives.as_map()["swap"@]
            == NativeFn::Swap,
        r.natives.as_map().contains_key("dup"@) && r.natives.as_map()["dup"@]
            == NativeFn::Dup,
        r.natives.as_map().contains_key("clear"@) && r.natives.as_map()["clear"@]
            == NativeFn::ClearStack,
        r.natives.as_map().contains_key("+"@) && r.natives.as_map()["+"@]
            == NativeFn::Plus,
        r.natives.as_map().contains_key("*"@) && r.natives.as_map()["*"@]
            == NativeFn::Mul,
        r.natives.as_map().contains_key("/"@) && r.natives.as_map()["/"@]
            == NativeFn::Div,
        r.natives.as_map().contains_key("-"@) && r.natives.as_map()["-"@]
            == NativeFn::Subst,
        r.natives.as_map().contains_key("!"@) && r.natives.as_map()["!"@]
            == NativeFn::Neg,
        r.natives.as_map().contains_key("or"@) && r.natives.as_map()["or"@]
            == NativeFn::Or,
        r.natives.as_map().contains_key("and"@) && r.natives.as_map()["and"@]
            == NativeFn::And,
        r.natives.as_map().contains_key(">"@) && r.natives.as_map()[">"@]
            == NativeFn::Gt,
        r.natives.as_map().contains_key("<"@) && r.natives.as_map()["<"@]
            == NativeFn::Lt,
        r.natives.as_map().contains_key(">="@) && r.natives.as_map()[">="@]
            == NativeFn::Gte,
        r.natives.as_map().contains_key("<="@) && r.natives.as_map()["<="@]
            == NativeFn::Lte,
        r.natives.as_map().contains_key("pow"@) && r.natives.as_map()["pow"@]
            == NativeFn::Pow,
        r.natives.as_map().contains_key("nop"@) && r.natives.as_map()["nop"@]
            == NativeFn::Nop,
        r.natives.as_map().contains_key("root"@) && r.natives.as_map()["root"@]
            == NativeFn::Root,
        r.natives.as_map().contains_key("=="@) && r.natives.as_map()["=="@]
            == NativeFn::Equal,
        r.natives.as_map().contains_key("call"@) && r.natives.as_map()["call"@]
            == NativeFn::Call,
        r.natives.as_map().contains_key("block_exists?"@) && r.natives.as_map()["block_exists?"@]
            == NativeFn::BlockExists,
        r.natives.as_map().contains_key("@"@) && r.natives.as_map()["@"@]
            == NativeFn::Deref,
        r.natives.as_map().contains_key("="@) && r.natives.as_map()["="@]
            == NativeFn::SetRef,
        r.natives.as_map().contains_key("alloc"@) && r.natives.as_map()["alloc"@]
            == NativeFn::Alloc,
        r.natives.as_map().contains_key("unsafe_realloc"@) && r.natives.as_map()["unsafe_realloc"@]
            == NativeFn::Realloc,
        r.natives.as_map().contains_key("unsafe_free"@) && r.natives.as_map()["unsafe_free"@]
            == NativeFn::Free,
        r.natives.as_map().contains_key("into_exception"@) && r.natives.as_map()["into_exception"@]
            == NativeFn::IntoException,
        r.natives.as_map().contains_key("unwrap_exception"@) && r.natives.as_map()["unwrap_exception"@]
            == NativeFn::UnwrapException,
        r.natives.as_map().contains_key("try"@) && r.natives.as_map()["try"@]
            == NativeFn::TryException,
        r.natives.as_map().contains_key("throw"@) && r.natives.as_map()["throw"@]
            == NativeFn::ThrowException,
        r.natives.as_map().contains_key("is_exception"@) && r.natives.as_map()["is_exception"@]
            == NativeFn::IsException,
        r.natives.as_map().contains_key("into_string"@) && r.natives.as_map()["into_string"@]
            == NativeFn::IntoString,
        r.natives.as_map().contains_key("into_number"@) && r.natives.as_map()["into_number"@]
            == NativeFn::IntoNumber,
        r.natives.as_map().contains_key("unsafe_into_ptr"@) && r.natives.as_map()["unsafe_into_ptr"@]
            == NativeFn::IntoPtr,
        r.natives.as_map().contains_key("is_pointer"@) && r.natives.as_map()["is_pointer"@]
            == NativeFn::IsPointer,
        r.natives.as_map().contains_key("is_number"@) && r.natives.as_map()["is_number"@]
            == NativeFn::IsNumber,
        r.natives.as_map().contains_key("is_block"@) && r.natives.as_map()["is_block"@]
            == NativeFn::IsBlock,
        r.natives.as_map().contains_key("is_bool"@) && r.natives.as_map()["is_bool"@]
            == NativeFn::IsBool,
        r.natives.as_map().contains_key("is_string"@) && r.natives.as_map()["is_string"@]
            == NativeFn::IsString,
        r.natives.as_map().contains_key("is_null"@) && r.natives.as_map()["is_null"@]
            == NativeFn::IsNull,
        r.natives.as_map().contains_key("string.len"@) && r.natives.as_map()["string.len"@]
            == NativeFn::Strlen,
        r.natives.as_map().contains_key("string.concat"@) && r.natives.as_map()["string.concat"@]
            == NativeFn::Concat,
        r.natives.as_map().contains_key("string.split"@) && r.natives.as_map()["string.split"@]
            == NativeFn::Split,
        r.natives.as_map().contains_key("string.contains"@) && r.natives.as_map()["string.contains"@]
            == NativeFn::Contains,
        r.natives.as_map().contains_key("string.chars"@) && r.natives.as_map()["string.chars"@]
            == NativeFn::Chars,
        r.natives.as_map().contains_key("ena.vm.get_annotation"@) && r.natives.as_map()["ena.vm.get_annotation"@]
            == NativeFn::VmGetAnnotation,
{
    let mut entries: Vec<(String, NativeFn)> = Vec::new();
    entries.push((String::from_str("drop"), NativeFn::DropValue));
    entries.push((String::from_str("peek"), NativeFn::PeekValueAt));
    entries.push((String::from_str("drop_at"), NativeFn::DropValueAt));
    entries.push((String::from_str("swap"), NativeFn::Swap));
    entries.push((String::from_str("dup"), NativeFn::Dup));
    entries.push((String::from_str("clear"), NativeFn::ClearStack));
    entries.push((String::from_str("+"), NativeFn::Plus));
    entries.push((String::from_str("*"), NativeFn::Mul));
    entries.push((String::from_str("/"), NativeFn::Div));
    entries.push((String::from_str("-"), NativeFn::Subst));
    entries.push((String::from_str("!"), NativeFn::Neg));
    entries.push((String::from_str("or"), NativeFn::Or));
    entries.push((String::from_str("and"), NativeFn::And));
    entries.push((String::from_str(">"), NativeFn::Gt));
    entries.push((String::from_str("<"), NativeFn::Lt));
    entries.push((String::from_str(">="), NativeFn::Gte));
    entries.push((String::from_str("<="), NativeFn::Lte));
    entries.push((String::from_str("pow"), NativeFn::Pow));
    entries.push((String::from_str("nop"), NativeFn::Nop));
    entries.push((String::from_str("root"), NativeFn::Root));
    entries.push((String::from_str("=="), NativeFn::Equal));
    entries.push((String::from_str("call"), NativeFn::Call));
    entries.push((String::from_str("block_exists?"), NativeFn::BlockExists));
    entries.push((String::from_str("@"), NativeFn::Deref));
    entries.push((String::from_str("="), NativeFn::SetRef));
    entries.push((String::from_str("alloc"), NativeFn::Alloc));
    entries.push((String::from_str("unsafe_realloc"), NativeFn::Realloc));
    entries.push((String::from_str("unsafe_free"), NativeFn::Free));
    entries.push((String::from_str("into_exception"), NativeFn::IntoException));
    entries.push((String::from_str("unwrap_exception"), NativeFn::UnwrapException));
    entries.push((String::from_str("try"), NativeFn::TryException));
    entries.push((String::from_str("throw"), NativeFn::ThrowException));
    entries.push((String::from_str("is_exception"), NativeFn::IsException));
    entries.push((String::from_str("into_string"), NativeFn::IntoString));
    entries.push((String::from_str("into_number"), NativeFn::IntoNumber));
    entries.push((String::from_str("unsafe_into_ptr"), NativeFn::IntoPtr));
    entries.push((String::from_str("is_pointer"), NativeFn::IsPointer));
    entries.push((String::from_str("is_number"), NativeFn::IsNumber));
    entries.push((String::from_str("is_block"), NativeFn::IsBlock));
    entries.push((String::from_str("is_bool"), NativeFn::IsBool));
    entries.push((String::from_str("is_string"), NativeFn::IsString));
    entries.push((String::from_str("is_null"), NativeFn::IsNull));
    entries.push((String::from_str("string.len"), NativeFn::Strlen));
    entries.push((String::from_str("string.concat"), NativeFn::Concat));
    entries.push((String::from_str("string.split"), NativeFn::Split));
    entries.push((String::from_str("string.contains"), NativeFn::Contains));
    entries.push((String::from_str("string.chars"), NativeFn::Chars));
    entries.push((String::from_str("ena.vm.get_annotation"), NativeFn::VmGetAnnotation));
    let natives = crate::names::NameMap::from_entries(entries);
    let g = NativeGroup { natives, prefix: String::from_str("") };
    proof {
        assert(g.natives@ =~= baseline_entries());
        lemma_baseline_map();
    }
    g
}

} // verus!
