//! The merged view of program blocks and native handlers that the
//! machine resolves names against.
use crate::ir::{Block, BlockView, IR};
use crate::names::{NameMap, ViewClone};
use vstd::prelude::*;

verus! {

/// Errors of the registry.
#[derive(Debug, Clone, Copy, PartialEq, Eq, Structural)]
pub enum BlocksError {
    BlockAlreadyExists,
}

/// One built-in operation of the machine. The set is closed: where the
/// original design lets an embedder hand in arbitrary handler functions,
/// this machine dispatches over this enum, so every handler's behaviour
/// is a verified function of this crate.
#[derive(Debug, Clone, Copy, PartialEq, Eq, Structural)]
pub enum NativeFn {
    DropValue,
    PeekValueAt,
    DropValueAt,
    Swap,
    Dup,
    ClearStack,
    Plus,
    Mul,
    Div,
    Subst,
    Neg,
    Or,
    And,
    Gt,
    Lt,
    Gte,
    Lte,
    Pow,
    Nop,
    Root,
    Equal,
    Call,
    BlockExists,
    Deref,
    SetRef,
    Alloc,
    Realloc,
    Free,
    IntoException,
    UnwrapException,
    TryException,
    ThrowException,
    IsException,
    IntoString,
    IntoNumber,
    IntoPtr,
    IsPointer,
    IsNumber,
    IsBlock,
    IsBool,
    IsString,
    IsNull,
    Strlen,
    Concat,
    Split,
    Contains,
    Chars,
    VmGetAnnotation,
}

impl View for NativeFn {
    type V = NativeFn;

    open spec fn view(&self) -> NativeFn {
        *self
    }
}

impl ViewClone for NativeFn {
    fn view_clone(&self) -> (r: Self)
        ensures
            r@ == self@,
    {
        *self
    }
}

/// A callable unit: a native handler or a program block.
#[derive(Debug)]
pub enum VMBlock {
    NativeHandler(NativeFn),
    IR(Block),
}

pub enum VMBlockView {
    NativeHandler(NativeFn),
    IR(BlockView),
}

impl View for VMBlock {
    type V = VMBlockView;

    open spec fn view(&self) -> VMBlockView {
        match self {
            VMBlock::NativeHandler(f) => VMBlockView::NativeHandler(*f),
            VMBlock::IR(b) => VMBlockView::IR(b@),
        }
    }
}

impl ViewClone for VMBlock {
    fn view_clone(&self) -> (r: Self)
        ensures
            r@ == self@,
    {
        match self {
            VMBlock::NativeHandler(f) => VMBlock::NativeHandler(*f),
            VMBlock::IR(b) => VMBlock::IR(b.view_clone()),
        }
    }
}

impl VMBlockView {
    /// Only a program block marked `Once` is memoized.
    pub open spec fn is_single_eval(self) -> bool {
        match self {
            VMBlockView::NativeHandler(_) => false,
            VMBlockView::IR(b) => b.run_type == crate::ir::BlockRunType::Once,
        }
    }

    /// Native handlers count as global.
    pub open spec fn is_global(self) -> bool {
        match self {
            VMBlockView::NativeHandler(_) => true,
            VMBlockView::IR(b) => b.global,
        }
    }
}

impl VMBlock {
    pub fn is_single_eval(&self) -> (r: bool)
        ensures
            r == self@.is_single_eval(),
    {
        match self {
            VMBlock::NativeHandler(_) => false,
            VMBlock::IR(block) => block.is_single_eval(),
        }
    }

    pub fn is_global(&self) -> (r: bool)
        ensures
            r == self@.is_global(),
    {
        match self {
            VMBlock::NativeHandler(_) => true,
            VMBlock::IR(block) => block.is_global(),
        }
    }
}

/// A group of named native handlers, with a name prefix.
pub struct NativeGroup {
    pub natives: NameMap<NativeFn>,
    pub prefix: String,
}

impl NativeGroup {
    pub fn new(prefix: &str) -> (r: Self)
        ensures
            r.natives@ =~= Seq::<(Seq<char>, NativeFn)>::empty(),
            r.natives.wf(),
            r.prefix@ == prefix@,
    {
        NativeGroup { natives: NameMap::new(), prefix: String::from_str(prefix) }
    }

    /// Registers one handler; a repeated name is refused.
    pub fn add_native(&mut self, name: &str, f: NativeFn) -> (r: Result<(), BlocksError>)
        requires
            old(self).natives.wf(),
        ensures
            final(self).natives.wf(),
            final(self).prefix == old(self).prefix,
            r is Err <==> old(self).natives.as_map().contains_key(name@),
            r is Err ==> final(self).natives@ == old(self).natives@,
            r is Ok ==> final(self).natives@ =~= old(self).natives@.push((name@, f))
                && final(self).natives.as_map() =~= old(self).natives.as_map().insert(name@, f),
    {
        let owned = String::from_str(name);
        if self.natives.contains_key(&owned) {
            return Err(BlocksError::BlockAlreadyExists);
        }
        self.natives.insert(owned, f);
        Ok(())
    }

    /// The child's handlers under the child's prefix, added to this group.
    pub fn add_child(&mut self, group: &NativeGroup) -> (r: Result<(), BlocksError>)
        requires
            old(self).natives.wf(),
            group.natives.wf(),
        ensures
            final(self).natives.wf(),
            final(self).prefix == old(self).prefix,
    {
        let n = group.natives.len();
        let mut i: usize = 0;
        while i < n
            invariant
                self.natives.wf(),
                self.prefix == old(self).prefix,
                n == group.natives@.len(),
                i <= n,
                group.natives.wf(),
            decreases n - i,
        {
            let name = Self::merge_prefix(&group.prefix, group.natives.key_at(i));
            let f = *group.natives.val_at(i);
            if self.natives.contains_key(&name) {
                return Err(BlocksError::BlockAlreadyExists);
            }
            self.natives.insert(name, f);
            i = i + 1;
        }
        Ok(())
    }

    /// `prefix.name`, or the bare name under an empty prefix.
    pub fn merge_prefix(prefix: &String, name: &String) -> (r: String)
        ensures
            prefix@.len() == 0 ==> r@ == name@,
            prefix@.len() > 0 ==> r@ == prefix@ + "."@ + name@,
    {
        if prefix.as_str().unicode_len() == 0 {
            name.clone()
        } else {
            let mut out = prefix.clone();
            out.append(".");
            out.append(name.as_str());
            out
        }
    }
}

/// The resolution view: program blocks and natives, with annotations.
pub struct Blocks {
    pub blocks: NameMap<VMBlock>,
    pub annotations: NameMap<String>,
}

impl Blocks {
    pub open spec fn wf(&self) -> bool {
        self.blocks.wf() && self.annotations.wf()
    }

    pub open spec fn blocks_map(&self) -> Map<Seq<char>, VMBlockView> {
        self.blocks.as_map()
    }

    pub fn empty() -> (r: Self)
        ensures
            r.wf(),
            r.blocks@ =~= Seq::<(Seq<char>, VMBlockView)>::empty(),
            r.annotations@ =~= Seq::<(Seq<char>, Seq<char>)>::empty(),
    {
        Blocks { blocks: NameMap::new(), annotations: NameMap::new() }
    }

    /// The registry of a program and a native group: program blocks first,
    /// then the natives; a shared name is refused.
    pub fn new(native: NativeGroup, program: IR) -> (r: Result<Self, BlocksError>)
        requires
            native.natives.wf(),
            program.wf(),
        ensures
            match r {
                Ok(b) => b.wf(),
                Err(_) => true,
            },
    {
        let mut out = Self::empty();
        match out.add_ir(program) {
            Ok(()) => {},
            Err(e) => {
                return Err(e);
            },
        }
        match out.add_native(native) {
            Ok(()) => {},
            Err(e) => {
                return Err(e);
            },
        }
        Ok(out)
    }

    pub fn get_block(&self, name: &String) -> (r: Option<&VMBlock>)
        requires
            self.wf(),
        ensures
            match r {
                Some(b) => self.blocks_map().contains_key(name@) && b@
                    == self.blocks_map().index(name@),
                None => !self.blocks_map().contains_key(name@),
            },
    {
        self.blocks.get(name)
    }

    /// Adds one callable unit; a present name is refused.
    pub fn add_block(&mut self, name: String, block: VMBlock) -> (r: Result<(), BlocksError>)
        requires
            old(self).wf(),
        ensures
            final(self).wf(),
            final(self).annotations == old(self).annotations,
            r is Err <==> old(self).blocks_map().contains_key(name@),
            r is Err ==> *final(self) == *old(self),
            r is Ok ==> final(self).blocks@ =~= old(self).blocks@.push((name@, block@))
                && final(self).blocks_map() =~= old(self).blocks_map().insert(name@, block@),
    {
        if self.blocks.contains_key(&name) {
            return Err(BlocksError::BlockAlreadyExists);
        }
        proof {
            crate::names::lemma_assoc_map_push(self.blocks@, name@, block@);
        }
        self.blocks.insert(name, block);
        Ok(())
    }

    /// Every handler of the group, under the group's own names.
    pub fn add_native(&mut self, native: NativeGroup) -> (r: Result<(), BlocksError>)
        requires
            old(self).wf(),
            native.natives.wf(),
        ensures
            final(self).wf(),
            final(self).annotations == old(self).annotations,
    {
        let n = native.natives.len();
        let mut i: usize = 0;
        while i < n
            invariant
                self.wf(),
                self.annotations == old(self).annotations,
                n == native.natives@.len(),
                i <= n,
                native.natives.wf(),
            decreases n - i,
        {
            let name = native.natives.key_at(i).clone();
            let f = *native.natives.val_at(i);
            match self.add_block(name, VMBlock::NativeHandler(f)) {
                Ok(()) => {},
                Err(e) => {
                    return Err(e);
                },
            }
            i = i + 1;
        }
        Ok(())
    }

    /// Every block and annotation of the program.
    pub fn add_ir(&mut self, program: IR) -> (r: Result<(), BlocksError>)
        requires
            old(self).wf(),
            program.wf(),
        ensures
            final(self).wf(),
            r is Ok && old(self).blocks@.len() == 0 ==> forall|k: Seq<char>|
                program.blocks_map().contains_key(k) ==> final(self).blocks_map().contains_key(k)
                    && final(self).blocks_map()[k] == VMBlockView::IR(program.blocks_map()[k]),
            r is Ok ==> forall|k: Seq<char>|
                program.annotations.as_map().contains_key(k)
                    ==> final(self).annotations.as_map().contains_key(k)
                    && final(self).annotations.as_map()[k] == program.annotations.as_map()[k],
    {
        let n = program.blocks.len();
        let mut i: usize = 0;
        while i < n
            invariant
                self.wf(),
                program.wf(),
                self.annotations == old(self).annotations,
                n == program.blocks@.len(),
                i <= n,
                old(self).blocks@.len() == 0 ==> self.blocks@ =~= program.blocks@.take(
                    i as int,
                ).map_values(
                    |p: (Seq<char>, BlockView)| (p.0, VMBlockView::IR(p.1)),
                ),
            decreases n - i,
        {
            let name = program.blocks.key_at(i).clone();
            let blk = program.blocks.val_at(i).view_clone();
            let ghost before = self.blocks@;
            match self.add_block(name, VMBlock::IR(blk)) {
                Ok(()) => {},
                Err(e) => {
                    return Err(e);
                },
            }
            proof {
                if old(self).blocks@.len() == 0 {
                    assert(self.blocks@ =~= before.push(
                        (program.blocks@[i as int].0, VMBlockView::IR(program.blocks@[i as int].1)),
                    ));
                    assert(self.blocks@ =~= program.blocks@.take(i as int + 1).map_values(
                        |p: (Seq<char>, BlockView)| (p.0, VMBlockView::IR(p.1)),
                    ));
                }
            }
            i = i + 1;
        }
        let ghost blocks_done = self.blocks;
        let an = program.annotations.len();
        let mut i: usize = 0;
        while i < an
            invariant
                self.wf(),
                program.wf(),
                an == program.annotations@.len(),
                i <= an,
                self.blocks == blocks_done,
                forall|k: Seq<char>|
                    #![trigger crate::names::assoc_map(program.annotations@.take(i as int)).dom().contains(k)]
                    crate::names::assoc_map(program.annotations@.take(i as int)).contains_key(k)
                        ==> self.annotations.as_map().contains_key(k)
                        && self.annotations.as_map()[k] == crate::names::assoc_map(
                        program.annotations@.take(i as int),
                    )[k],
            decreases an - i,
        {
            let name = program.annotations.key_at(i).clone();
            let text = program.annotations.val_at(i).clone();
            let ghost nv = name@;
            let ghost tv = text@;
            let ghost prev = self.annotations.as_map();
            self.annotations.insert(name, text);
            proof {
                assert(program.annotations@.take(i as int + 1).drop_last()
                    =~= program.annotations@.take(i as int));
                assert(program.annotations@.take(i as int + 1).last()
                    == program.annotations@[i as int]);
                let m1 = crate::names::assoc_map(program.annotations@.take(i as int + 1));
                assert(m1 == crate::names::assoc_map(program.annotations@.take(i as int)).insert(
                    nv,
                    tv,
                ));
                assert forall|k: Seq<char>|
                    m1.contains_key(k) implies self.annotations.as_map().contains_key(k)
                    && self.annotations.as_map()[k] == m1[k] by {
                    let base = crate::names::assoc_map(program.annotations@.take(i as int));
                    assert(base.insert(nv, tv).contains_key(k));
                    if k != nv {
                        assert(base.dom().contains(k));
                        assert(prev.contains_key(k) && prev[k] == base[k]);
                        assert(self.annotations.as_map() == prev.insert(nv, tv));
                    }
                }
            }
            i = i + 1;
        }
        proof {
            assert(program.annotations@.take(an as int) =~= program.annotations@);
            if old(self).blocks@.len() == 0 {
                assert(program.blocks@.take(n as int) =~= program.blocks@);
                crate::names::lemma_assoc_map_contains(program.blocks@, Seq::empty());
                assert forall|k: Seq<char>|
                    program.blocks_map().contains_key(k) implies self.blocks_map().contains_key(k)
                    && self.blocks_map()[k] == VMBlockView::IR(program.blocks_map()[k]) by {
                    crate::names::lemma_assoc_map_contains(program.blocks@, k);
                    let j = choose|j: int|
                        0 <= j < program.blocks@.len() && program.blocks@[j].0 == k;
                    crate::names::lemma_assoc_map_index(program.blocks@, j);
                    let mapped = program.blocks@.map_values(
                        |p: (Seq<char>, BlockView)| (p.0, VMBlockView::IR(p.1)),
                    );
                    assert(self.blocks@ =~= mapped);
                    assert(mapped[j] == (program.blocks@[j].0, VMBlockView::IR(
                        program.blocks@[j].1,
                    )));
                    crate::names::lemma_assoc_map_index(self.blocks@, j);
                }
            }
        }
        Ok(())
    }

    /// True when some line of the block's annotation starts with the
    /// directive, compared byte for byte.
    pub fn has_directive(&self, name: &String, directive: &String) -> (r: bool)
        requires
            self.wf(),
        ensures
            r == match self.annotations.as_map().contains_key(name@) {
                true => crate::text::has_directive_spec(
                    vstd::utf8::encode_utf8(self.annotations.as_map()[name@]),
                    vstd::utf8::encode_utf8(directive@),
                ),
                false => false,
            },
    {
        match self.annotations.get(name) {
            Some(text) => crate::text::text_has_directive(text, directive),
            None => false,
        }
    }
}

} // verus!
