//! The virtual machine: lexical scopes with single-eval caches, the
//! operand and call stacks, and the interpreter over block bodies.
use crate::blocks::{Blocks, NativeFn, VMBlock, VMBlockView};
use crate::heap::{rc_minus_rel, rc_plus_rel, Heap, HeapError};
use crate::names::{NameMap, ViewClone};
use crate::value::{Value, ValueView};
use vstd::prelude::*;

verus! {

/// Errors of execution.
#[derive(Debug, Clone, PartialEq)]
pub enum VMError {
    UnknownBlock(String),
    NoIR,
    StackEnded,
    ExpectedBoolean,
    ExpectedString,
    ExpectedNumber,
    ExpectedInteger,
    ExpectedBlock,
    ExpectedPointer,
    ExpectedValue,
    ExpectedException,
    CannotShadowBlocksInLocalScope(String),
    SupervisorError(crate::supervisor::ThreadSupervisorError),
    CannotCompare(Value, Value),
    CannotConvert(Value),
    HeapError(HeapError),
    BadPointer(usize),
    RuntimeException(Value),
    NoScope,
    NoSingleEval,
    DivisionByZero,
    OutOfFuel,
}

/// Maps a heap failure into the machine's error space.
pub fn heap_result_into_vm<T>(r: Result<T, HeapError>) -> (out: Result<T, VMError>)
    ensures
        match r {
            Ok(v) => out matches Ok(w) && w == v,
            Err(e) => out == Result::<T, VMError>::Err(VMError::HeapError(e)),
        },
{
    match r {
        Ok(v) => Ok(v),
        Err(e) => Err(VMError::HeapError(e)),
    }
}

/// The views of a sequence of names.
pub open spec fn strs_view(s: Seq<String>) -> Seq<Seq<char>> {
    s.map_values(|x: String| x@)
}

/// The views of a sequence of values.
pub open spec fn vals_view(s: Seq<Value>) -> Seq<ValueView> {
    s.map_values(|v: Value| v@)
}

/// One activation record: the running block's name, a snapshot of the
/// resolution view, the single-eval cache, and the locally owned names.
pub struct Scope {
    pub block: String,
    pub blocks: Blocks,
    pub single_evals: NameMap<Value>,
    pub locals: Vec<String>,
}

impl Scope {
    pub open spec fn wf(&self) -> bool {
        self.single_evals.wf() && self.blocks.wf()
    }

    /// The scope owns the name as a local.
    pub open spec fn spec_has_local(&self, name: Seq<char>) -> bool {
        exists|j: int| 0 <= j < self.locals@.len() && self.locals@[j]@ == name
    }

    pub fn new(blocks: Blocks, block: String) -> (r: Self)
        requires
            blocks.wf(),
        ensures
            r.wf(),
            r.block == block,
            r.blocks == blocks,
            r.single_evals@ =~= Seq::<(Seq<char>, ValueView)>::empty(),
            r.locals@ =~= Seq::<String>::empty(),
    {
        Scope { blocks, single_evals: NameMap::new(), locals: Vec::new(), block }
    }

    pub fn add_local(&mut self, local: String)
        ensures
            final(self).block == old(self).block,
            final(self).blocks == old(self).blocks,
            final(self).single_evals == old(self).single_evals,
            final(self).locals@ == old(self).locals@.push(local),
    {
        self.locals.push(local);
    }

    pub fn has_local(&self, local: &String) -> (r: bool)
        ensures
            r == self.spec_has_local(local@),
    {
        let n = self.locals.len();
        let mut i: usize = 0;
        while i < n
            invariant
                n == self.locals@.len(),
                i <= n,
                forall|j: int| 0 <= j < i ==> (#[trigger] self.locals@[j])@ != local@,
            decreases n - i,
        {
            if self.locals[i].eq(local) {
                return true;
            }
            i = i + 1;
        }
        false
    }

    pub fn add_single_eval(&mut self, local: String, value: Value)
        requires
            old(self).wf(),
        ensures
            final(self).wf(),
            final(self).block == old(self).block,
            final(self).blocks == old(self).blocks,
            final(self).locals == old(self).locals,
            final(self).single_evals.as_map() =~= old(self).single_evals.as_map().insert(
                local@,
                value@,
            ),
    {
        self.single_evals.insert(local, value);
    }

    pub fn has_single_eval(&self, local: &String) -> (r: bool)
        ensures
            r == self.single_evals.as_map().contains_key(local@),
    {
        self.single_evals.contains_key(local)
    }
}

/// The stack of activation records; the first is the root.
pub struct ScopeManager {
    pub scopes: Vec<Scope>,
}

/// The names of the global program blocks of a resolution view, in
/// entry order.
pub open spec fn global_names(entries: Seq<(Seq<char>, VMBlockView)>) -> Seq<Seq<char>>
    decreases entries.len(),
{
    if entries.len() == 0 {
        Seq::empty()
    } else {
        let rest = global_names(entries.drop_last());
        match entries.last().1 {
            VMBlockView::IR(b) => if b.global {
                rest.push(entries.last().0)
            } else {
                rest
            },
            VMBlockView::NativeHandler(_) => rest,
        }
    }
}

/// The index of the topmost scope that owns a name as a local.
pub open spec fn owner_scope(scopes: Seq<Scope>, name: Seq<char>) -> Option<int>
    decreases scopes.len(),
{
    if scopes.len() == 0 {
        None
    } else if scopes.last().spec_has_local(name) {
        Some(scopes.len() - 1)
    } else {
        owner_scope(scopes.drop_last(), name)
    }
}

/// The owner is a real index below the length.
pub proof fn lemma_owner_scope(scopes: Seq<Scope>, name: Seq<char>)
    ensures
        match owner_scope(scopes, name) {
            Some(i) => 0 <= i < scopes.len() && scopes[i].spec_has_local(name),
            None => forall|i: int| 0 <= i < scopes.len() ==> !(#[trigger] scopes[i]).spec_has_local(
                name,
            ),
        },
    decreases scopes.len(),
{
    if scopes.len() > 0 {
        lemma_owner_scope(scopes.drop_last(), name);
        if !scopes.last().spec_has_local(name) {
            assert forall|i: int|
                0 <= i < scopes.len() - 1 implies scopes.drop_last()[i] == scopes[i] by {}
        }
    }
}

impl ScopeManager {
    pub open spec fn wf(&self) -> bool {
        forall|i: int| 0 <= i < self.scopes@.len() ==> (#[trigger] self.scopes@[i]).wf()
    }

    pub fn new() -> (r: Self)
        ensures
            r.scopes@ =~= Seq::<Scope>::empty(),
            r.wf(),
    {
        ScopeManager { scopes: Vec::new() }
    }

    /// Clears every scope and installs the root, whose locals are the
    /// names of the global program blocks of the view.
    pub fn root(&mut self, blocks: Blocks, block: String) -> (r: Result<(), VMError>)
        requires
            blocks.wf(),
        ensures
            r is Ok,
            final(self).wf(),
            final(self).scopes@.len() == 1,
            final(self).scopes@[0].block == block,
            final(self).scopes@[0].blocks == blocks,
            final(self).scopes@[0].single_evals@ =~= Seq::<(Seq<char>, ValueView)>::empty(),
            strs_view(final(self).scopes@[0].locals@) == global_names(blocks.blocks@),
    {
        let mut locals: Vec<String> = Vec::new();
        let n = blocks.blocks.len();
        let mut i: usize = 0;
        while i < n
            invariant
                blocks.wf(),
                n == blocks.blocks@.len(),
                i <= n,
                strs_view(locals@) =~= global_names(blocks.blocks@.take(i as int)),
            decreases n - i,
        {
            let is_global_ir = match blocks.blocks.val_at(i) {
                VMBlock::IR(b) => b.is_global(),
                VMBlock::NativeHandler(_) => false,
            };
            if is_global_ir {
                locals.push(blocks.blocks.key_at(i).clone());
            }
            proof {
                assert(blocks.blocks@.take(i as int + 1).drop_last() =~= blocks.blocks@.take(
                    i as int,
                ));
                assert(blocks.blocks@.take(i as int + 1).last() == blocks.blocks@[i as int]);
                assert(strs_view(locals@) =~= global_names(blocks.blocks@.take(i as int + 1)));
            }
            i = i + 1;
        }
        proof {
            assert(blocks.blocks@.take(n as int) =~= blocks.blocks@);
        }
        let root = Scope { blocks, single_evals: NameMap::new(), locals, block };
        let mut scopes: Vec<Scope> = Vec::new();
        scopes.push(root);
        self.scopes = scopes;
        Ok(())
    }

    /// Pushes a scope whose view is a copy of the root's.
    pub fn parent(&mut self, block: String) -> (r: Result<(), VMError>)
        requires
            old(self).wf(),
        ensures
            final(self).wf(),
            r is Err <==> old(self).scopes@.len() == 0,
            r is Err ==> r == Result::<(), VMError>::Err(VMError::NoScope) && *final(self) == *old(
                self,
            ),
            r is Ok ==> {
                &&& final(self).scopes@.len() == old(self).scopes@.len() + 1
                &&& forall|i: int|
                    0 <= i < old(self).scopes@.len() ==> final(self).scopes@[i] == old(
                        self,
                    ).scopes@[i]
                &&& final(self).scopes@.last().block == block
                &&& final(self).scopes@.last().blocks.blocks@ == old(
                    self,
                ).scopes@[0].blocks.blocks@
                &&& final(self).scopes@.last().blocks.annotations@ == old(
                    self,
                ).scopes@[0].blocks.annotations@
                &&& final(self).scopes@.last().single_evals@ =~= Seq::<
                    (Seq<char>, ValueView),
                >::empty()
                &&& final(self).scopes@.last().locals@ =~= Seq::<String>::empty()
            },
    {
        if self.scopes.len() == 0 {
            return Err(VMError::NoScope);
        }
        let view = Blocks {
            blocks: self.scopes[0].blocks.blocks.duplicate(),
            annotations: self.scopes[0].blocks.annotations.duplicate(),
        };
        let scope = Scope { blocks: view, single_evals: NameMap::new(), locals: Vec::new(), block };
        self.scopes.push(scope);
        Ok(())
    }

    /// Pushes a scope whose view is a copy of the top one's.
    pub fn child(&mut self, block: String) -> (r: Result<(), VMError>)
        requires
            old(self).wf(),
        ensures
            final(self).wf(),
            r is Err <==> old(self).scopes@.len() == 0,
            r is Err ==> r == Result::<(), VMError>::Err(VMError::NoScope) && *final(self) == *old(
                self,
            ),
            r is Ok ==> {
                &&& final(self).scopes@.len() == old(self).scopes@.len() + 1
                &&& forall|i: int|
                    0 <= i < old(self).scopes@.len() ==> final(self).scopes@[i] == old(
                        self,
                    ).scopes@[i]
                &&& final(self).scopes@.last().block == block
                &&& final(self).scopes@.last().blocks.blocks@ == old(
                    self,
                ).scopes@.last().blocks.blocks@
                &&& final(self).scopes@.last().blocks.annotations@ == old(
                    self,
                ).scopes@.last().blocks.annotations@
                &&& final(self).scopes@.last().single_evals@ =~= Seq::<
                    (Seq<char>, ValueView),
                >::empty()
                &&& final(self).scopes@.last().locals@ =~= Seq::<String>::empty()
            },
    {
        let n = self.scopes.len();
        if n == 0 {
            return Err(VMError::NoScope);
        }
        let view = Blocks {
            blocks: self.scopes[n - 1].blocks.blocks.duplicate(),
            annotations: self.scopes[n - 1].blocks.annotations.duplicate(),
        };
        let scope = Scope { blocks: view, single_evals: NameMap::new(), locals: Vec::new(), block };
        self.scopes.push(scope);
        Ok(())
    }

    /// Pops the top scope and hands back the values its single-eval
    /// cache held, in entry order; the caller settles their counts.
    pub fn pop_scope(&mut self) -> (r: Result<Vec<Value>, VMError>)
        requires
            old(self).wf(),
        ensures
            final(self).wf(),
            r is Err <==> old(self).scopes@.len() == 0,
            r is Err ==> r == Result::<Vec<Value>, VMError>::Err(VMError::NoScope) && *final(self)
                == *old(self),
            r matches Ok(vals) ==> {
                &&& final(self).scopes@ == old(self).scopes@.drop_last()
                &&& vals_view(vals@) =~= old(self).scopes@.last().single_evals@.map_values(
                    |p: (Seq<char>, ValueView)| p.1,
                )
            },
    {
        let n = self.scopes.len();
        if n == 0 {
            return Err(VMError::NoScope);
        }
        let scope = match self.scopes.pop() {
            Some(s) => s,
            None => {
                return Err(VMError::NoScope);
            },
        };
        let m = scope.single_evals.len();
        let mut vals: Vec<Value> = Vec::new();
        let mut i: usize = 0;
        while i < m
            invariant
                scope.wf(),
                m == scope.single_evals@.len(),
                i <= m,
                vals@.len() == i,
                forall|j: int| 0 <= j < i ==> (#[trigger] vals@[j])@ == scope.single_evals@[j].1,
            decreases m - i,
        {
            let v = scope.single_evals.val_at(i).view_clone();
            vals.push(v);
            i = i + 1;
        }
        proof {
            assert forall|j: int|
                0 <= j < m implies vals_view(vals@)[j] == scope.single_evals@.map_values(
                |p: (Seq<char>, ValueView)| p.1,
            )[j] by {
                assert(vals_view(vals@)[j] == vals@[j]@);
            }
            assert(vals_view(vals@) =~= scope.single_evals@.map_values(
                |p: (Seq<char>, ValueView)| p.1,
            ));
        }
        Ok(vals)
    }

    /// Appends a local name to the top scope.
    pub fn add_local(&mut self, local: String) -> (r: Result<(), VMError>)
        requires
            old(self).wf(),
        ensures
            final(self).wf(),
            r is Err <==> old(self).scopes@.len() == 0,
            r is Err ==> *final(self) == *old(self) && (r matches Err(e) && e is UnknownBlock),
            r is Ok ==> {
                &&& final(self).scopes@.len() == old(self).scopes@.len()
                &&& forall|i: int|
                    0 <= i < old(self).scopes@.len() - 1 ==> final(self).scopes@[i] == old(
                        self,
                    ).scopes@[i]
                &&& final(self).scopes@.last().block == old(self).scopes@.last().block
                &&& final(self).scopes@.last().blocks == old(self).scopes@.last().blocks
                &&& final(self).scopes@.last().single_evals == old(
                    self,
                ).scopes@.last().single_evals
                &&& final(self).scopes@.last().locals@ == old(self).scopes@.last().locals@.push(
                    local,
                )
            },
    {
        let n = self.scopes.len();
        if n == 0 {
            return Err(VMError::UnknownBlock(local));
        }
        let top = vstd::std_specs::vec::vec_index_mut(&mut self.scopes, n - 1);
        top.add_local(local);
        Ok(())
    }

    /// Stores a value in the cache of the scope that owns the name.
    pub fn add_single_eval(&mut self, local: String, value: Value) -> (r: Result<(), VMError>)
        requires
            old(self).wf(),
        ensures
            final(self).wf(),
            r is Err <==> owner_scope(old(self).scopes@, local@) is None,
            r is Err ==> *final(self) == *old(self) && (r matches Err(e) && e is UnknownBlock),
            r is Ok ==> {
                let i = owner_scope(old(self).scopes@, local@)->Some_0;
                &&& final(self).scopes@.len() == old(self).scopes@.len()
                &&& forall|j: int|
                    0 <= j < old(self).scopes@.len() && j != i ==> final(self).scopes@[j] == old(
                        self,
                    ).scopes@[j]
                &&& final(self).scopes@[i].block == old(self).scopes@[i].block
                &&& final(self).scopes@[i].blocks == old(self).scopes@[i].blocks
                &&& final(self).scopes@[i].locals == old(self).scopes@[i].locals
                &&& final(self).scopes@[i].single_evals.as_map() =~= old(
                    self,
                ).scopes@[i].single_evals.as_map().insert(local@, value@)
            },
    {
        let i = match self.lookup_local_owner_index(&local) {
            Some(i) => i,
            None => {
                return Err(VMError::UnknownBlock(local));
            },
        };
        proof {
            lemma_owner_scope(self.scopes@, local@);
            assert(self.scopes@[i as int].wf());
        }
        let owner = vstd::std_specs::vec::vec_index_mut(&mut self.scopes, i);
        owner.add_single_eval(local, value);
        Ok(())
    }

    /// The cached value of the name in its owning scope.
    pub fn lookup_single_eval(&self, local: &String) -> (r: Result<Value, VMError>)
        requires
            self.wf(),
        ensures
            match r {
                Ok(v) => {
                    &&& owner_scope(self.scopes@, local@) matches Some(i)
                    &&& self.scopes@[owner_scope(self.scopes@, local@)->Some_0].single_evals.as_map().contains_key(
                        local@,
                    )
                    &&& v@ == self.scopes@[owner_scope(
                        self.scopes@,
                        local@,
                    )->Some_0].single_evals.as_map()[local@]
                },
                Err(e) => match owner_scope(self.scopes@, local@) {
                    Some(i) => e == VMError::NoSingleEval
                        && !self.scopes@[i].single_evals.as_map().contains_key(local@),
                    None => e is UnknownBlock,
                },
            },
    {
        let i = match self.lookup_local_owner_index(local) {
            Some(i) => i,
            None => {
                return Err(VMError::UnknownBlock(local.clone()));
            },
        };
        proof {
            lemma_owner_scope(self.scopes@, local@);
            assert(self.scopes@[i as int].wf());
        }
        match self.scopes[i].single_evals.get(local) {
            Some(v) => Ok(v.view_clone()),
            None => Err(VMError::NoSingleEval),
        }
    }

    /// The index of the topmost scope owning the name.
    fn lookup_local_owner_index(&self, local: &String) -> (r: Option<usize>)
        ensures
            match r {
                Some(i) => owner_scope(self.scopes@, local@) == Some(i as int),
                None => owner_scope(self.scopes@, local@) is None,
            },
    {
        let n = self.scopes.len();
        proof {
            assert(self.scopes@.take(n as int) =~= self.scopes@);
        }
        let mut i: usize = n;
        while i > 0
            invariant
                n == self.scopes@.len(),
                i <= n,
                owner_scope(self.scopes@, local@) == owner_scope(
                    self.scopes@.take(i as int),
                    local@,
                ),
            decreases i,
        {
            proof {
                assert(self.scopes@.take(i as int).last() == self.scopes@[i as int - 1]);
                assert(self.scopes@.take(i as int).drop_last() =~= self.scopes@.take(i as int - 1));
            }
            if self.scopes[i - 1].has_local(local) {
                return Some(i - 1);
            }
            i = i - 1;
        }
        None
    }

    /// The top scope's resolution view.
    pub fn blocks(&self) -> (r: &Blocks)
        requires
            self.scopes@.len() >= 1,
        ensures
            *r == self.scopes@.last().blocks,
    {
        let n = self.scopes.len();
        &self.scopes[n - 1].blocks
    }

    /// Registers a callable unit in the top scope's view; a name already
    /// there is refused.
    pub fn add_block_to_top(&mut self, name: String, block: VMBlock) -> (r: Result<
        (),
        crate::blocks::BlocksError,
    >)
        requires
            old(self).wf(),
            old(self).scopes@.len() >= 1,
        ensures
            final(self).wf(),
            final(self).scopes@.len() == old(self).scopes@.len(),
            forall|i: int|
                0 <= i < old(self).scopes@.len() - 1 ==> final(self).scopes@[i] == old(
                    self,
                ).scopes@[i],
            final(self).scopes@.last().block == old(self).scopes@.last().block,
            final(self).scopes@.last().single_evals == old(self).scopes@.last().single_evals,
            final(self).scopes@.last().locals == old(self).scopes@.last().locals,
            final(self).scopes@.last().blocks.annotations == old(
                self,
            ).scopes@.last().blocks.annotations,
            r is Err <==> old(self).scopes@.last().blocks.blocks_map().contains_key(name@),
            r is Err ==> final(self).scopes@.last().blocks == old(self).scopes@.last().blocks,
            r is Ok ==> final(self).scopes@.last().blocks.blocks_map() =~= old(
                self,
            ).scopes@.last().blocks.blocks_map().insert(name@, block@),
    {
        let n = self.scopes.len();
        let top = vstd::std_specs::vec::vec_index_mut(&mut self.scopes, n - 1);
        top.blocks.add_block(name, block)
    }
}

impl Default for ScopeManager {
    fn default() -> (r: Self)
        ensures
            r.scopes@ =~= Seq::<Scope>::empty(),
            r.wf(),
    {
        ScopeManager::new()
    }
}

/// The switches of one machine.
#[derive(Debug, Clone, Copy, PartialEq, Eq, Structural)]
pub struct VMOptions {
    pub debug_stack: bool,
    pub enable_gc: bool,
    pub debug_gc: bool,
    pub debug_calls: bool,
}

impl VMOptions {
    pub fn new() -> (r: Self)
        ensures
            r == (VMOptions {
                debug_stack: false,
                enable_gc: true,
                debug_gc: false,
                debug_calls: false,
            }),
    {
        VMOptions { debug_stack: false, enable_gc: true, debug_gc: false, debug_calls: false }
    }
}

impl Default for VMOptions {
    fn default() -> (r: Self)
        ensures
            r == (VMOptions {
                debug_stack: false,
                enable_gc: true,
                debug_gc: false,
                debug_calls: false,
            }),
    {
        VMOptions::new()
    }
}

/// One message in a supervised machine's mailbox.
pub struct Message {
    pub from: u32,
    pub content: Value,
}

/// One machine: the operand stack, the diagnostic call stack, the heap,
/// the switches, the scope stack, and the mailbox a supervisor may give
/// it.
pub struct VM {
    pub stack: Vec<Value>,
    pub call_stack: Vec<String>,
    pub heap: Heap,
    pub options: VMOptions,
    pub scope_manager: ScopeManager,
    pub thread_id: Option<u32>,
    pub message_stack: Option<Vec<Message>>,
}

impl VM {
    pub open spec fn wf(&self) -> bool {
        self.heap.wf() && self.scope_manager.wf()
    }

    /// The operand stack as mathematical values.
    pub open spec fn stack_view(&self) -> Seq<ValueView> {
        vals_view(self.stack@)
    }

    /// The call stack mirrors the scopes above the root.
    pub open spec fn balanced(&self) -> bool {
        self.call_stack@.len() + 1 == self.scope_manager.scopes@.len()
    }

    pub fn new(options: VMOptions) -> (r: Self)
        ensures
            r.wf(),
            r.options == options,
            r.stack@ =~= Seq::<Value>::empty(),
            r.call_stack@ =~= Seq::<String>::empty(),
            r.scope_manager.scopes@ =~= Seq::<Scope>::empty(),
            r.thread_id is None,
            r.message_stack is None,
            r.heap.spec_gc() == options.enable_gc,
            r.heap.spec_debug() == options.debug_gc,
            r.heap.spec_slots() =~= Map::<usize, Value>::empty(),
            r.heap.spec_blocks() =~= Seq::<crate::heap::MemoryBlock>::empty(),
            r.heap.spec_rc() =~= Map::<usize, usize>::empty(),
    {
        VM {
            call_stack: Vec::new(),
            heap: Heap::new(options.enable_gc, options.debug_gc),
            options,
            stack: Vec::new(),
            scope_manager: ScopeManager::new(),
            thread_id: None,
            message_stack: None,
        }
    }

    /// Drops the stacks and the heap, keeping the switches and scopes.
    pub fn clean(&mut self)
        ensures
            final(self).wf() == final(self).scope_manager.wf(),
            final(self).options == old(self).options,
            final(self).scope_manager == old(self).scope_manager,
            final(self).stack@ =~= Seq::<Value>::empty(),
            final(self).call_stack@ =~= Seq::<String>::empty(),
            final(self).heap.spec_gc() == old(self).options.enable_gc,
            final(self).heap.spec_debug() == old(self).options.debug_gc,
            final(self).heap.spec_slots() =~= Map::<usize, Value>::empty(),
            final(self).heap.spec_blocks() =~= Seq::<crate::heap::MemoryBlock>::empty(),
            final(self).heap.spec_rc() =~= Map::<usize, usize>::empty(),
    {
        self.call_stack = Vec::new();
        self.heap = Heap::new(self.options.enable_gc, self.options.debug_gc);
        self.stack = Vec::new();
    }

    /// One count added for a pointer value; other values change nothing.
    pub fn handle_plus(&mut self, value: Value) -> (r: Result<(), VMError>)
        requires
            old(self).heap.wf(),
        ensures
            final(self).stack == old(self).stack,
            final(self).call_stack == old(self).call_stack,
            final(self).options == old(self).options,
            final(self).scope_manager == old(self).scope_manager,
            match value@ {
                ValueView::Pointer(t) => rc_plus_rel(old(self).heap, final(self).heap, t, r is Ok)
                    && (r is Err ==> (r matches Err(e) && e is HeapError)),
                _ => r is Ok && final(self).heap == old(self).heap,
            },
    {
        if let Value::Pointer(ptr) = value {
            heap_result_into_vm(self.heap.rc_plus(ptr))
        } else {
            Ok(())
        }
    }

    /// One count removed for a pointer value; other values change nothing.
    pub fn handle_minus(&mut self, value: Value) -> (r: Result<(), VMError>)
        requires
            old(self).heap.wf(),
        ensures
            final(self).stack == old(self).stack,
            final(self).call_stack == old(self).call_stack,
            final(self).options == old(self).options,
            final(self).scope_manager == old(self).scope_manager,
            match value@ {
                ValueView::Pointer(t) => rc_minus_rel(old(self).heap, final(self).heap, t, r is Ok)
                    && (r is Err ==> (r matches Err(e) && e is HeapError)),
                _ => r is Ok && final(self).heap == old(self).heap,
            },
    {
        if let Value::Pointer(ptr) = value {
            heap_result_into_vm(self.heap.rc_minus(ptr))
        } else {
            Ok(())
        }
    }

    /// Pushes a value; a pushed pointer acquires one count on its target.
    pub fn push(&mut self, value: Value) -> (r: Result<(), VMError>)
        requires
            old(self).heap.wf(),
        ensures
            final(self).stack@ == old(self).stack@.push(value),
            final(self).stack_view() == old(self).stack_view().push(value@),
            final(self).call_stack == old(self).call_stack,
            final(self).options == old(self).options,
            final(self).scope_manager == old(self).scope_manager,
            match value@ {
                ValueView::Pointer(t) => rc_plus_rel(old(self).heap, final(self).heap, t, r is Ok)
                    && (r is Err ==> (r matches Err(e) && e is HeapError)),
                _ => r is Ok && final(self).heap == old(self).heap,
            },
    {
        let v2 = value.clone();
        self.stack.push(value);
        proof {
            assert(self.stack_view() =~= old(self).stack_view().push(v2@));
        }
        self.handle_plus(v2)
    }

    /// Pops a value; a popped pointer gives up one count on its target.
    pub fn pop(&mut self) -> (r: Result<Value, VMError>)
        requires
            old(self).heap.wf(),
        ensures
            final(self).call_stack == old(self).call_stack,
            final(self).options == old(self).options,
            final(self).scope_manager == old(self).scope_manager,
            old(self).stack@.len() == 0 <==> r == Result::<Value, VMError>::Err(
                VMError::StackEnded,
            ),
            old(self).stack@.len() == 0 ==> final(self).stack@ == old(self).stack@
                && final(self).heap == old(self).heap,
            old(self).stack@.len() > 0 ==> {
                &&& final(self).stack@ == old(self).stack@.drop_last()
                &&& final(self).stack_view() == old(self).stack_view().drop_last()
                &&& (r matches Ok(v) ==> v == old(self).stack@.last())
                &&& match old(self).stack@.last()@ {
                    ValueView::Pointer(t) => rc_minus_rel(
                        old(self).heap,
                        final(self).heap,
                        t,
                        r is Ok,
                    ) && (r is Err ==> (r matches Err(e) && e is HeapError)),
                    _ => r matches Ok(v) && v == old(self).stack@.last() && final(self).heap
                        == old(self).heap,
                }
            },
    {
        match self.stack.pop() {
            Some(i) => {
                proof {
                    assert(self.stack_view() =~= old(self).stack_view().drop_last());
                    assert(old(self).stack_view().last() == old(self).stack@.last()@);
                }
                let i2 = i.clone();
                match self.handle_minus(i2) {
                    Ok(()) => Ok(i),
                    Err(e) => Err(e),
                }
            },
            None => Err(VMError::StackEnded),
        }
    }

    /// Pops a number and reads it as a machine address; a negative or
    /// too-large number is refused, any other value is no address.
    pub fn pop_pointer(&mut self) -> (r: Result<usize, VMError>)
        requires
            old(self).heap.wf(),
        ensures
            final(self).call_stack == old(self).call_stack,
            final(self).options == old(self).options,
            final(self).scope_manager == old(self).scope_manager,
            old(self).stack@.len() == 0 <==> r == Result::<usize, VMError>::Err(
                VMError::StackEnded,
            ),
            old(self).stack@.len() == 0 ==> final(self).stack@ == old(self).stack@
                && final(self).heap == old(self).heap,
            old(self).stack@.len() > 0 ==> {
                &&& final(self).stack@ == old(self).stack@.drop_last()
                &&& match old(self).stack@.last()@ {
                    ValueView::Number(n) => final(self).heap == old(self).heap && (if 0 <= n
                        <= usize::MAX {
                        r == Result::<usize, VMError>::Ok(n as usize)
                    } else {
                        r == Result::<usize, VMError>::Err(VMError::ExpectedInteger)
                    }),
                    ValueView::Pointer(t) => r is Err && rc_minus_rel(
                        old(self).heap,
                        final(self).heap,
                        t,
                        !(r is Err && r->Err_0 is HeapError),
                    ),
                    _ => final(self).heap == old(self).heap && r == Result::<usize, VMError>::Err(
                        VMError::ExpectedPointer,
                    ),
                }
            },
    {
        let val = match self.pop() {
            Ok(v) => v,
            Err(e) => {
                return Err(e);
            },
        };
        match val {
            Value::Number(i) => {
                if i < 0 {
                    return Err(VMError::ExpectedInteger);
                }
                let u = i as u64;
                if u > usize::MAX as u64 {
                    return Err(VMError::ExpectedInteger);
                }
                Ok(u as usize)
            },
            _ => Err(VMError::ExpectedPointer),
        }
    }
}


/// What the current top view resolves a name to.
pub open spec fn resolved(vm: VM, name: Seq<char>) -> Option<crate::blocks::VMBlockView> {
    if vm.scope_manager.scopes@.len() >= 1
        && vm.scope_manager.scopes@.last().blocks.blocks_map().contains_key(name) {
        Some(vm.scope_manager.scopes@.last().blocks.blocks_map()[name])
    } else {
        None
    }
}

/// The name resolves to a memoized program block.
pub open spec fn resolves_to_once(vm: VM, name: Seq<char>) -> bool {
    match resolved(vm, name) {
        Some(b) => b.is_single_eval(),
        None => false,
    }
}

/// The cached single-eval value held for a name by its owning scope.
pub open spec fn cached_single_eval(vm: VM, name: Seq<char>) -> Option<ValueView> {
    match owner_scope(vm.scope_manager.scopes@, name) {
        Some(i) => if vm.scope_manager.scopes@[i].single_evals.as_map().contains_key(name) {
            Some(vm.scope_manager.scopes@[i].single_evals.as_map()[name])
        } else {
            None
        },
        None => None,
    }
}

/// A scope kept intact but for its single-eval cache.
pub open spec fn scope_still(pre: Scope, post: Scope) -> bool {
    post.block == pre.block && post.blocks == pre.blocks && post.locals == pre.locals
}

/// What one balanced block invocation preserves: the switches, the call
/// stack, the number of scopes, and every surviving scope's name,
/// resolution view and locals (its cache may gain entries).
pub open spec fn run_frame(pre: VM, post: VM) -> bool {
    &&& post.wf()
    &&& post.options == pre.options
    &&& post.scope_manager.scopes@.len() == pre.scope_manager.scopes@.len()
    &&& strs_view(post.call_stack@) == strs_view(pre.call_stack@)
    &&& forall|i: int|
        0 <= i < pre.scope_manager.scopes@.len() ==> scope_still(
            pre.scope_manager.scopes@[i],
            #[trigger] post.scope_manager.scopes@[i],
        )
    &&& post.heap.spec_gc() == pre.heap.spec_gc()
    &&& post.heap.spec_debug() == pre.heap.spec_debug()
}

/// What running the ops of the top scope preserves: as `run_frame`, but
/// the top scope may also gain locals and blocks.
pub open spec fn ops_frame(pre: VM, post: VM) -> bool {
    &&& post.wf()
    &&& post.options == pre.options
    &&& post.scope_manager.scopes@.len() == pre.scope_manager.scopes@.len()
    &&& pre.scope_manager.scopes@.len() >= 1
    &&& strs_view(post.call_stack@) == strs_view(pre.call_stack@)
    &&& forall|i: int|
        0 <= i < pre.scope_manager.scopes@.len() - 1 ==> scope_still(
            pre.scope_manager.scopes@[i],
            #[trigger] post.scope_manager.scopes@[i],
        )
    &&& post.scope_manager.scopes@.last().block == pre.scope_manager.scopes@.last().block
    &&& post.heap.spec_gc() == pre.heap.spec_gc()
    &&& post.heap.spec_debug() == pre.heap.spec_debug()
}

/// One balanced invocation: a pushed scope and call entry, a body that
/// respects the frame of the running scope, and the final pops, compose
/// to the caller-facing frame.
pub proof fn lemma_run_frame_compose(pre: VM, entered: VM, done: VM, fin: VM)
    requires
        entered.scope_manager.scopes@.len() == pre.scope_manager.scopes@.len() + 1,
        forall|i: int|
            0 <= i < pre.scope_manager.scopes@.len() ==> entered.scope_manager.scopes@[i]
                == pre.scope_manager.scopes@[i],
        entered.call_stack@.len() == pre.call_stack@.len() + 1,
        forall|i: int|
            0 <= i < pre.call_stack@.len() ==> entered.call_stack@[i] == pre.call_stack@[i],
        entered.options == pre.options,
        entered.heap.spec_gc() == pre.heap.spec_gc(),
        entered.heap.spec_debug() == pre.heap.spec_debug(),
        ops_frame(entered, done),
        fin.scope_manager.scopes@ == done.scope_manager.scopes@.drop_last(),
        fin.call_stack@ == done.call_stack@.drop_last(),
        fin.options == done.options,
        fin.heap.spec_gc() == done.heap.spec_gc(),
        fin.heap.spec_debug() == done.heap.spec_debug(),
        fin.wf(),
    ensures
        run_frame(pre, fin),
{
    assert(strs_view(done.call_stack@).len() == done.call_stack@.len());
    assert(strs_view(entered.call_stack@).len() == entered.call_stack@.len());
    assert(fin.scope_manager.scopes@.len() == pre.scope_manager.scopes@.len());
    assert forall|i: int|
        0 <= i < pre.scope_manager.scopes@.len() implies scope_still(
        pre.scope_manager.scopes@[i],
        #[trigger] fin.scope_manager.scopes@[i],
    ) by {
        assert(fin.scope_manager.scopes@[i] == done.scope_manager.scopes@[i]);
        assert(scope_still(entered.scope_manager.scopes@[i], done.scope_manager.scopes@[i]));
        assert(entered.scope_manager.scopes@[i] == pre.scope_manager.scopes@[i]);
    }
    assert forall|i: int|
        0 <= i < pre.call_stack@.len() implies strs_view(fin.call_stack@)[i] == strs_view(
        pre.call_stack@,
    )[i] by {
        assert(strs_view(fin.call_stack@)[i] == fin.call_stack@[i]@);
        assert(fin.call_stack@[i] == done.call_stack@[i]);
        assert(strs_view(done.call_stack@)[i] == strs_view(entered.call_stack@)[i]);
        assert(strs_view(entered.call_stack@)[i] == entered.call_stack@[i]@);
        assert(entered.call_stack@[i] == pre.call_stack@[i]);
    }
    assert(strs_view(fin.call_stack@) =~= strs_view(pre.call_stack@));
}

impl VM {
    /// Installs the root scope over the given resolution view.
    pub fn new_scope(&mut self, blocks: Blocks) -> (r: Result<(), VMError>)
        requires
            blocks.wf(),
        ensures
            r is Ok,
            final(self).scope_manager.wf(),
            final(self).scope_manager.scopes@.len() == 1,
            final(self).scope_manager.scopes@[0].blocks == blocks,
            final(self).scope_manager.scopes@[0].single_evals@ =~= Seq::<
                (Seq<char>, ValueView),
            >::empty(),
            strs_view(final(self).scope_manager.scopes@[0].locals@) == global_names(
                blocks.blocks@,
            ),
            final(self).stack == old(self).stack,
            final(self).call_stack == old(self).call_stack,
            final(self).heap == old(self).heap,
            final(self).options == old(self).options,
    {
        self.scope_manager.root(blocks, String::from_str("root"))
    }

    /// Pops the top scope, giving back one count for each pointer its
    /// single-eval cache held.
    pub fn pop_scope(&mut self) -> (r: Result<(), VMError>)
        requires
            old(self).wf(),
        ensures
            final(self).wf(),
            final(self).stack == old(self).stack,
            final(self).call_stack == old(self).call_stack,
            final(self).options == old(self).options,
            final(self).heap.spec_gc() == old(self).heap.spec_gc(),
            final(self).heap.spec_debug() == old(self).heap.spec_debug(),
            !old(self).heap.spec_gc() ==> final(self).heap == old(self).heap,
            final(self).heap.spec_slots().submap_of(old(self).heap.spec_slots()),
            forall|k: int|
                0 <= k < final(self).heap.spec_blocks().len() ==> old(
                    self,
                ).heap.spec_blocks().contains(#[trigger] final(self).heap.spec_blocks()[k]),
            old(self).scope_manager.scopes@.len() > 0 && (forall|j: int|
                0 <= j < old(self).scope_manager.scopes@.last().single_evals@.len() ==> !((
                #[trigger] old(self).scope_manager.scopes@.last().single_evals@[j]).1 is Pointer))
                ==> r is Ok && final(self).heap == old(self).heap,
            old(self).scope_manager.scopes@.len() == 0 <==> r == Result::<(), VMError>::Err(
                VMError::NoScope,
            ),
            old(self).scope_manager.scopes@.len() == 0 ==> final(self).scope_manager == old(
                self,
            ).scope_manager && final(self).heap == old(self).heap,
            old(self).scope_manager.scopes@.len() > 0 ==> final(self).scope_manager.scopes@ == old(
                self,
            ).scope_manager.scopes@.drop_last(),
    {
        let to_clean = match self.scope_manager.pop_scope() {
            Ok(v) => v,
            Err(_) => {
                return Err(VMError::NoScope);
            },
        };
        let n = to_clean.len();
        let ghost cache = old(self).scope_manager.scopes@.last().single_evals@;
        proof {
            assert(vals_view(to_clean@).len() == to_clean@.len());
            assert forall|j: int|
                0 <= j < to_clean@.len() implies vals_view(to_clean@)[j] == cache[j].1 by {
                assert(vals_view(to_clean@)[j] == cache.map_values(
                    |p: (Seq<char>, ValueView)| p.1,
                )[j]);
            }
        }
        let mut i: usize = 0;
        while i < n
            invariant
                self.wf(),
                n == to_clean@.len(),
                i <= n,
                self.stack == old(self).stack,
                self.call_stack == old(self).call_stack,
                self.options == old(self).options,
                self.heap.spec_gc() == old(self).heap.spec_gc(),
                self.heap.spec_debug() == old(self).heap.spec_debug(),
                !old(self).heap.spec_gc() ==> self.heap == old(self).heap,
                cache == old(self).scope_manager.scopes@.last().single_evals@,
                to_clean@.len() == cache.len(),
                forall|j: int|
                    0 <= j < to_clean@.len() ==> vals_view(to_clean@)[j] == (
                    #[trigger] cache[j]).1,
                old(self).scope_manager.scopes@.len() > 0,
                (forall|j: int| 0 <= j < cache.len() ==> !((#[trigger] cache[j]).1 is Pointer))
                    ==> self.heap == old(self).heap,
                self.heap.spec_slots().submap_of(old(self).heap.spec_slots()),
                forall|k: int|
                    0 <= k < self.heap.spec_blocks().len() ==> old(
                        self,
                    ).heap.spec_blocks().contains(#[trigger] self.heap.spec_blocks()[k]),
                self.scope_manager.scopes@ == old(self).scope_manager.scopes@.drop_last(),
            decreases n - i,
        {
            let v = to_clean[i].clone();
            proof {
                assert(v@ == vals_view(to_clean@)[i as int]);
                assert(vals_view(to_clean@)[i as int] == cache[i as int].1);
            }
            let ghost before_minus = *self;
            match self.handle_minus(v) {
                Ok(()) => {},
                Err(e) => {
                    proof {
                        broadcast use vstd::map_lib::lemma_submap_of_trans;

                        assert forall|k: int|
                            0 <= k < self.heap.spec_blocks().len() implies old(
                            self,
                        ).heap.spec_blocks().contains(#[trigger] self.heap.spec_blocks()[k]) by {
                            assert(before_minus.heap.spec_blocks().contains(
                                self.heap.spec_blocks()[k],
                            ));
                            let k0 = choose|k0: int|
                                0 <= k0 < before_minus.heap.spec_blocks().len()
                                    && before_minus.heap.spec_blocks()[k0]
                                    == self.heap.spec_blocks()[k];
                        }
                    }
                    return Err(e);
                },
            }
            proof {
                broadcast use vstd::map_lib::lemma_submap_of_trans;

                assert forall|k: int|
                    0 <= k < self.heap.spec_blocks().len() implies old(
                    self,
                ).heap.spec_blocks().contains(#[trigger] self.heap.spec_blocks()[k]) by {
                    assert(before_minus.heap.spec_blocks().contains(self.heap.spec_blocks()[k]));
                    let k0 = choose|k0: int|
                        0 <= k0 < before_minus.heap.spec_blocks().len()
                            && before_minus.heap.spec_blocks()[k0] == self.heap.spec_blocks()[k];
                }
            }
            i = i + 1;
        }
        Ok(())
    }

    /// Installs the view as the root scope, clears the call stack, and
    /// runs the entry block. Execution is bounded by a very large fuel
    /// so that every run provably ends: a computation that would not
    /// terminate is cut off with `OutOfFuel` instead of spinning.
    pub fn run(&mut self, main: &String, blocks: Blocks) -> (r: Result<bool, VMError>)
        requires
            old(self).wf(),
            blocks.wf(),
        ensures
            final(self).wf(),
            final(self).options == old(self).options,
            final(self).balanced(),
            final(self).scope_manager.scopes@.len() == 1,
            !blocks.blocks_map().contains_key(main@) ==> (r matches Err(e) && e is UnknownBlock)
                && final(self).stack@ == old(self).stack@ && final(self).heap == old(self).heap,
    {
        match self.new_scope(blocks) {
            Ok(()) => {},
            Err(e) => {
                return Err(e);
            },
        }
        self.call_stack = Vec::new();
        self.run_block(main, 0xffff_ffff_ffffu64)
    }

    /// Caches the stack's top value for the name's owning scope, the
    /// cached copy holding one count of its own.
    fn cache_single_eval(&mut self, block_name: &String) -> (r: Result<(), VMError>)
        requires
            old(self).wf(),
            old(self).scope_manager.scopes@.len() >= 1,
        ensures
            final(self).wf(),
            final(self).options == old(self).options,
            final(self).stack == old(self).stack,
            final(self).call_stack == old(self).call_stack,
            final(self).heap.spec_gc() == old(self).heap.spec_gc(),
            final(self).heap.spec_debug() == old(self).heap.spec_debug(),
            final(self).scope_manager.scopes@.len() == old(self).scope_manager.scopes@.len(),
            forall|i: int|
                0 <= i < old(self).scope_manager.scopes@.len() ==> scope_still(
                    old(self).scope_manager.scopes@[i],
                    #[trigger] final(self).scope_manager.scopes@[i],
                ),
            old(self).stack@.len() == 0 ==> r == Result::<(), VMError>::Err(VMError::ExpectedValue),
            r is Ok ==> {
                &&& old(self).stack@.len() > 0
                &&& owner_scope(old(self).scope_manager.scopes@, block_name@) matches Some(i)
                &&& final(self).scope_manager.scopes@[owner_scope(
                    old(self).scope_manager.scopes@,
                    block_name@,
                )->Some_0].single_evals.as_map() =~= old(self).scope_manager.scopes@[owner_scope(
                    old(self).scope_manager.scopes@,
                    block_name@,
                )->Some_0].single_evals.as_map().insert(block_name@, old(self).stack@.last()@)
                &&& forall|j: int|
                    0 <= j < old(self).scope_manager.scopes@.len() && j != owner_scope(
                        old(self).scope_manager.scopes@,
                        block_name@,
                    )->Some_0 ==> final(self).scope_manager.scopes@[j] == old(
                        self,
                    ).scope_manager.scopes@[j]
            },
    {
        let n = self.stack.len();
        if n == 0 {
            return Err(VMError::ExpectedValue);
        }
        let top = self.stack[n - 1].clone();
        let top2 = top.clone();
        let ghost pre = *self;
        match self.scope_manager.add_single_eval(block_name.clone(), top) {
            Ok(()) => {},
            Err(e) => {
                proof {
                    lemma_owner_scope(old(self).scope_manager.scopes@, block_name@);
                }
                return Err(e);
            },
        }
        proof {
            lemma_owner_scope(old(self).scope_manager.scopes@, block_name@);
        }
        self.handle_plus(top2)
    }

    /// Pops the scope and the call-stack entry on the way out of a
    /// failing block, as the unwinding rule asks.
    fn unwind(&mut self)
        requires
            old(self).wf(),
            old(self).scope_manager.scopes@.len() >= 1,
            old(self).call_stack@.len() >= 1,
        ensures
            final(self).wf(),
            final(self).options == old(self).options,
            final(self).stack == old(self).stack,
            final(self).heap.spec_gc() == old(self).heap.spec_gc(),
            final(self).heap.spec_debug() == old(self).heap.spec_debug(),
            final(self).scope_manager.scopes@ == old(self).scope_manager.scopes@.drop_last(),
            final(self).call_stack@ == old(self).call_stack@.drop_last(),
    {
        let _ = self.pop_scope();
        let _ = self.call_stack.pop();
    }

    /// Looks the name up in the current view and executes it: a fresh
    /// scope is pushed (a top-level one for a global block), a memoized
    /// `Once` block short-circuits to its cached value, and the body runs
    /// with its scope and call-stack entry dropped on every way out.
    /// `Ok(true)` reports an early `Return`.
    pub fn run_block(&mut self, block_name: &String, fuel: u64) -> (r: Result<bool, VMError>)
        requires
            old(self).wf(),
            old(self).scope_manager.scopes@.len() >= 1,
        ensures
            run_frame(*old(self), *final(self)),
            old(self).balanced() ==> final(self).balanced(),
            !old(self).scope_manager.scopes@.last().blocks.blocks_map().contains_key(block_name@)
                ==> (r matches Err(e) && e is UnknownBlock) && final(self).stack == old(self).stack
                && final(self).heap == old(self).heap && final(self).scope_manager == old(
                self,
            ).scope_manager && final(self).call_stack == old(self).call_stack,
            fuel >= 1 && resolves_to_once(*old(self), block_name@) ==> (cached_single_eval(
                *old(self),
                block_name@,
            ) matches Some(v) ==> {
                &&& (r is Ok ==> r == Result::<bool, VMError>::Ok(false)
                    && final(self).stack_view() == old(self).stack_view().push(v)
                    && final(self).scope_manager.scopes@ =~= old(self).scope_manager.scopes@
                    && final(self).call_stack == old(self).call_stack)
                &&& (!(v is Pointer) ==> r is Ok && final(self).heap == old(self).heap)
            }),
            fuel >= 1 && resolves_to_once(*old(self), block_name@) && cached_single_eval(
                *old(self),
                block_name@,
            ) is None && owner_scope(old(self).scope_manager.scopes@, block_name@) is Some && old(
                self,
            ).scope_manager.scopes@[0].blocks.blocks_map().contains_key(block_name@) && r is Ok
                ==> final(self).stack@.len() > 0 && cached_single_eval(*final(self), block_name@)
                == Some(final(self).stack_view().last()),
        decreases fuel, 3int,
    {
        proof {
            assert(self.scope_manager.scopes@[self.scope_manager.scopes@.len() - 1].wf());
        }
        let block = match self.scope_manager.blocks().get_block(block_name) {
            Some(b) => b.view_clone(),
            None => {
                return Err(VMError::UnknownBlock(block_name.clone()));
            },
        };
        let ghost rb = block@;
        proof {
            assert(resolved(*old(self), block_name@) == Some(rb));
        }
        if fuel == 0 {
            return Err(VMError::OutOfFuel);
        }
        let is_glob = block.is_global();
        if is_glob {
            match self.scope_manager.parent(block_name.clone()) {
                Ok(()) => {},
                Err(e) => {
                    return Err(e);
                },
            }
        } else {
            match self.scope_manager.child(block_name.clone()) {
                Ok(()) => {},
                Err(e) => {
                    return Err(e);
                },
            }
        }
        let ghost pushed = *self;
        proof {
            // The fresh scope owns no name, so the owner of any name and
            // its cached value are the caller's.
            assert(pushed.scope_manager.scopes@.last().locals@.len() == 0);
            assert(!pushed.scope_manager.scopes@.last().spec_has_local(block_name@));
            assert(pushed.scope_manager.scopes@.drop_last() =~= old(self).scope_manager.scopes@);
            assert(owner_scope(pushed.scope_manager.scopes@, block_name@) == owner_scope(
                old(self).scope_manager.scopes@,
                block_name@,
            ));
            lemma_owner_scope(old(self).scope_manager.scopes@, block_name@);
        }
        if block.is_single_eval() {
            match self.scope_manager.lookup_single_eval(block_name) {
                Ok(v) => {
                    let ghost vv = v@;
                    proof {
                        let i = owner_scope(old(self).scope_manager.scopes@, block_name@)->Some_0;
                        assert(pushed.scope_manager.scopes@[i] == old(
                            self,
                        ).scope_manager.scopes@[i]);
                        assert(cached_single_eval(*old(self), block_name@) == Some(vv));
                    }
                    match self.push(v) {
                        Ok(()) => {},
                        Err(e) => {
                            let _ = self.pop_scope();
                            return Err(e);
                        },
                    }
                    proof {
                        assert(self.scope_manager.scopes@.last().single_evals@.len() == 0);
                    }
                    let _ = self.pop_scope();
                    proof {
                        assert(self.scope_manager.scopes@ =~= old(self).scope_manager.scopes@);
                        assert(self.stack_view() =~= old(self).stack_view().push(vv));
                    }
                    return Ok(false);
                },
                Err(_) => {
                    proof {
                        if cached_single_eval(*old(self), block_name@) is Some {
                            let i = owner_scope(
                                old(self).scope_manager.scopes@,
                                block_name@,
                            )->Some_0;
                            assert(pushed.scope_manager.scopes@[i] == old(
                                self,
                            ).scope_manager.scopes@[i]);
                            assert(false);
                        }
                    }
                },
            }
        }
        self.call_stack.push(block_name.clone());
        let ghost entered = *self;
        match block {
            VMBlock::NativeHandler(f) => {
                proof {
                    assert(!resolves_to_once(*old(self), block_name@));
                }
                match crate::native::dispatch(self, f, (fuel - 1) as u64) {
                    Ok(()) => {},
                    Err(e) => {
                        let ghost done = *self;
                        proof {
                            assert(strs_view(done.call_stack@).len()
                                == strs_view(entered.call_stack@).len());
                        }
                        self.unwind();
                        proof {
                            lemma_run_frame_compose(*old(self), entered, done, *self);
                        }
                        return Err(e);
                    },
                }
                let ghost done = *self;
                proof {
                    assert(strs_view(done.call_stack@).len() == strs_view(
                        entered.call_stack@,
                    ).len());
                }
                self.unwind();
                proof {
                    lemma_run_frame_compose(*old(self), entered, done, *self);
                }
                Ok(false)
            },
            VMBlock::IR(b) => {
                let early = match self.run_ops(&b.code, (fuel - 1) as u64) {
                    Ok(early) => early,
                    Err(e) => {
                        let ghost done = *self;
                        proof {
                            assert(strs_view(done.call_stack@).len()
                                == strs_view(entered.call_stack@).len());
                        }
                        self.unwind();
                        proof {
                            lemma_run_frame_compose(*old(self), entered, done, *self);
                        }
                        return Err(e);
                    },
                };
                let ghost after_ops = *self;
                if matches!(b.run_type, crate::ir::BlockRunType::Once) {
                    match self.cache_single_eval(block_name) {
                        Ok(()) => {},
                        Err(e) => {
                            let ghost done = *self;
                            proof {
                                assert(strs_view(done.call_stack@).len()
                                    == strs_view(entered.call_stack@).len());
                            }
                            self.unwind();
                            proof {
                                lemma_run_frame_compose(*old(self), entered, done, *self);
                            }
                            return Err(e);
                        },
                    }
                    let ghost done = *self;
                    proof {
                        assert(strs_view(done.call_stack@).len() == strs_view(
                            entered.call_stack@,
                        ).len());
                    }
                    self.unwind();
                    proof {
                        lemma_run_frame_compose(*old(self), entered, done, *self);
                        if resolves_to_once(*old(self), block_name@) && cached_single_eval(
                            *old(self),
                            block_name@,
                        ) is None && owner_scope(
                            old(self).scope_manager.scopes@,
                            block_name@,
                        ) is Some && old(
                            self,
                        ).scope_manager.scopes@[0].blocks.blocks_map().contains_key(block_name@) {
                            self.lemma_once_cached(
                                *old(self),
                                pushed,
                                entered,
                                after_ops,
                                done,
                                block_name@,
                                is_glob,
                            );
                        }
                    }
                    return Ok(early);
                }
                let ghost done = *self;
                proof {
                    assert(strs_view(done.call_stack@).len() == strs_view(
                        entered.call_stack@,
                    ).len());
                    if resolves_to_once(*old(self), block_name@) {
                        assert(rb->IR_0.run_type == crate::ir::BlockRunType::Once);
                        assert(b@.run_type == crate::ir::BlockRunType::Once);
                        assert(false);
                    }
                }
                self.unwind();
                proof {
                    lemma_run_frame_compose(*old(self), entered, done, *self);
                }
                Ok(early)
            },
        }
    }

    /// The chain behind the caching law: the pushed scope's view holds
    /// the running block's name, so the body can never register it as a
    /// local, the name's owner survives the pop, and the owner's cache
    /// ends holding the final stack top.
    proof fn lemma_once_cached(
        &self,
        pre: VM,
        pushed: VM,
        entered: VM,
        after_ops: VM,
        done: VM,
        name: Seq<char>,
        is_glob: bool,
    )
        requires
            pre.scope_manager.scopes@.len() >= 1,
            owner_scope(pre.scope_manager.scopes@, name) is Some,
            pre.scope_manager.scopes@[0].blocks.blocks_map().contains_key(name),
            pre.scope_manager.scopes@.last().blocks.blocks_map().contains_key(name),
            // the pushed scope
            pushed.scope_manager.scopes@.len() == pre.scope_manager.scopes@.len() + 1,
            forall|i: int|
                0 <= i < pre.scope_manager.scopes@.len() ==> pushed.scope_manager.scopes@[i]
                    == pre.scope_manager.scopes@[i],
            pushed.scope_manager.scopes@.last().locals@.len() == 0,
            is_glob ==> pushed.scope_manager.scopes@.last().blocks.blocks@
                == pre.scope_manager.scopes@[0].blocks.blocks@,
            !is_glob ==> pushed.scope_manager.scopes@.last().blocks.blocks@
                == pre.scope_manager.scopes@.last().blocks.blocks@,
            entered.scope_manager == pushed.scope_manager,
            // the body's walk
            ops_frame(entered, after_ops),
            after_ops.scope_manager.scopes@.last().locals@.len() >= 0,
            forall|j: int|
                0 <= j < after_ops.scope_manager.scopes@.last().locals@.len()
                    ==> !entered.scope_manager.scopes@.last().blocks.blocks_map().contains_key(
                    (#[trigger] after_ops.scope_manager.scopes@.last().locals@[j])@,
                ),
            // the caching step
            owner_scope(after_ops.scope_manager.scopes@, name) matches Some(i),
            done.scope_manager.scopes@.len() == after_ops.scope_manager.scopes@.len(),
            forall|i: int|
                0 <= i < after_ops.scope_manager.scopes@.len() ==> scope_still(
                    after_ops.scope_manager.scopes@[i],
                    #[trigger] done.scope_manager.scopes@[i],
                ),
            after_ops.stack@.len() > 0,
            done.scope_manager.scopes@[owner_scope(
                after_ops.scope_manager.scopes@,
                name,
            )->Some_0].single_evals.as_map() =~= after_ops.scope_manager.scopes@[owner_scope(
                after_ops.scope_manager.scopes@,
                name,
            )->Some_0].single_evals.as_map().insert(name, after_ops.stack@.last()@),
            forall|j: int|
                0 <= j < after_ops.scope_manager.scopes@.len() && j != owner_scope(
                    after_ops.scope_manager.scopes@,
                    name,
                )->Some_0 ==> done.scope_manager.scopes@[j] == after_ops.scope_manager.scopes@[j],
            done.stack == after_ops.stack,
            // the pop
            self.scope_manager.scopes@ == done.scope_manager.scopes@.drop_last(),
            self.stack == done.stack,
        ensures
            self.stack@.len() > 0,
            cached_single_eval(*self, name) == Some(self.stack_view().last()),
    {
        let pres = pre.scope_manager.scopes@;
        let aos = after_ops.scope_manager.scopes@;
        // the body never registered the name as a local of the top scope
        assert(entered.scope_manager.scopes@.last().blocks.blocks_map().contains_key(name)) by {
            if is_glob {
                assert(crate::names::assoc_map(
                    pushed.scope_manager.scopes@.last().blocks.blocks@,
                ) == crate::names::assoc_map(pres[0].blocks.blocks@));
            }
        }
        assert(!aos.last().spec_has_local(name)) by {
            if aos.last().spec_has_local(name) {
                let j = choose|j: int|
                    0 <= j < aos.last().locals@.len() && aos.last().locals@[j]@ == name;
            }
        }
        // the owner is the caller's, below the scope about to pop
        assert(owner_scope(aos, name) == owner_scope(aos.drop_last(), name));
        assert(aos.drop_last().len() == pres.len());
        assert forall|j: int|
            0 <= j < pres.len() implies (#[trigger] aos.drop_last()[j]).locals
            == pres[j].locals by {
            assert(scope_still(entered.scope_manager.scopes@[j], aos[j]));
            assert(entered.scope_manager.scopes@[j] == pres[j]);
            assert(aos.drop_last()[j] == aos[j]);
        }
        lemma_owner_scope_locals(pres, aos.drop_last(), name);
        let i = owner_scope(pres, name)->Some_0;
        lemma_owner_scope(pres, name);
        assert(owner_scope(aos, name) == Some(i));
        // the cached entry survives the pop
        assert(self.scope_manager.scopes@[i] == done.scope_manager.scopes@[i]);
        // the owner of the name is unchanged in the final scopes
        assert(self.scope_manager.scopes@.len() == pres.len());
        assert forall|j: int|
            0 <= j < pres.len() implies (#[trigger] self.scope_manager.scopes@[j]).locals
            == pres[j].locals by {
            assert(self.scope_manager.scopes@[j] == done.scope_manager.scopes@[j]);
            if j != i {
                assert(done.scope_manager.scopes@[j] == aos[j]);
            } else {
                assert(scope_still(aos[i], done.scope_manager.scopes@[i]));
            }
            assert(scope_still(entered.scope_manager.scopes@[j], aos[j]));
            assert(entered.scope_manager.scopes@[j] == pres[j]);
        }
        lemma_owner_scope_locals(pres, self.scope_manager.scopes@, name);
        assert(owner_scope(self.scope_manager.scopes@, name) == Some(i));
        // and it holds the final stack top
        assert(self.scope_manager.scopes@[i].single_evals.as_map().contains_key(name));
        assert(self.scope_manager.scopes@[i].single_evals.as_map()[name]
            == after_ops.stack@.last()@);
        assert(self.stack_view().last() == self.stack@.last()@);
    }

    /// Runs a body's ops in order against the current top scope.
    /// `Ok(true)` means a `Return` (or `ReturnLocal`) ended the body.
    fn run_ops(&mut self, code: &Vec<crate::ir::IRCode>, fuel: u64) -> (r: Result<bool, VMError>)
        requires
            old(self).wf(),
            old(self).scope_manager.scopes@.len() >= 1,
        ensures
            ops_frame(*old(self), *final(self)),
            r is Ok ==> {
                let pre_top = old(self).scope_manager.scopes@.last();
                let post_top = final(self).scope_manager.scopes@.last();
                &&& post_top.locals@.len() >= pre_top.locals@.len()
                &&& forall|j: int|
                    0 <= j < pre_top.locals@.len() ==> post_top.locals@[j] == pre_top.locals@[j]
                &&& forall|j: int|
                    pre_top.locals@.len() <= j < post_top.locals@.len()
                        ==> !pre_top.blocks.blocks_map().contains_key(
                        (#[trigger] post_top.locals@[j])@,
                    )
            },
        decreases fuel, 2int,
    {
        if fuel == 0 {
            return Err(VMError::OutOfFuel);
        }
        let n = code.len();
        let mut i: usize = 0;
        let mut broke = false;
        while i < n && !broke
            invariant
                self.wf(),
                self.scope_manager.scopes@.len() >= 1,
                fuel >= 1,
                n == code@.len(),
                i <= n,
                ops_frame(*old(self), *self),
                self.scope_manager.scopes@.last().locals@.len() >= old(
                    self,
                ).scope_manager.scopes@.last().locals@.len(),
                forall|j: int|
                    0 <= j < old(self).scope_manager.scopes@.last().locals@.len()
                        ==> self.scope_manager.scopes@.last().locals@[j] == old(
                        self,
                    ).scope_manager.scopes@.last().locals@[j],
                forall|j: int|
                    old(self).scope_manager.scopes@.last().locals@.len() <= j
                        < self.scope_manager.scopes@.last().locals@.len() ==> !old(
                        self,
                    ).scope_manager.scopes@.last().blocks.blocks_map().contains_key(
                        (#[trigger] self.scope_manager.scopes@.last().locals@[j])@,
                    ),
                forall|k: Seq<char>|
                    old(self).scope_manager.scopes@.last().blocks.blocks_map().contains_key(k)
                        ==> self.scope_manager.scopes@.last().blocks.blocks_map().contains_key(k),
            decreases n - i,
        {
            let ghost before = *self;
            match &code[i] {
                crate::ir::IRCode::PutValue(val) => {
                    match self.push(val.view_clone()) {
                        Ok(()) => {},
                        Err(e) => {
                            return Err(e);
                        },
                    }
                },
                crate::ir::IRCode::Return => {
                    return Ok(true);
                },
                crate::ir::IRCode::ReturnLocal => {
                    return Ok(true);
                },
                crate::ir::IRCode::Call(name) => {
                    match self.run_block(name, (fuel - 1) as u64) {
                        Ok(_) => {},
                        Err(e) => {
                            return Err(e);
                        },
                    }
                },
                crate::ir::IRCode::LocalBlock(name, typ, body) => {
                    match self.scope_manager.add_local(name.clone()) {
                        Ok(()) => {},
                        Err(e) => {
                            return Err(e);
                        },
                    }
                    let blk = crate::ir::Block {
                        global: false,
                        run_type: *typ,
                        code: crate::ir::clone_codes(body),
                    };
                    match self.scope_manager.add_block_to_top(name.clone(), VMBlock::IR(blk)) {
                        Ok(()) => {},
                        Err(_) => {
                            return Err(VMError::CannotShadowBlocksInLocalScope(name.clone()));
                        },
                    }
                },
                crate::ir::IRCode::If(target) => {
                    let val = match self.pop() {
                        Ok(v) => v,
                        Err(e) => {
                            return Err(e);
                        },
                    };
                    match val {
                        Value::Boolean(bv) => {
                            if bv {
                                match self.run_block(target, (fuel - 1) as u64) {
                                    Ok(true) => {
                                        broke = true;
                                    },
                                    Ok(false) => {},
                                    Err(e) => {
                                        return Err(e);
                                    },
                                }
                            }
                        },
                        _ => {
                            return Err(VMError::ExpectedBoolean);
                        },
                    }
                },
                crate::ir::IRCode::While(target) => {
                    match self.run_while(target, (fuel - 1) as u64) {
                        Ok(()) => {},
                        Err(e) => {
                            return Err(e);
                        },
                    }
                },
            }
            i = i + 1;
        }
        Ok(false)
    }

    /// Pops the condition and runs the body while the condition is the
    /// boolean truth; an early return of the body exits the loop.
    fn run_while(&mut self, target: &String, fuel: u64) -> (r: Result<(), VMError>)
        requires
            old(self).wf(),
            old(self).scope_manager.scopes@.len() >= 1,
        ensures
            ops_frame(*old(self), *final(self)),
            final(self).scope_manager.scopes@.last().locals == old(
                self,
            ).scope_manager.scopes@.last().locals,
            final(self).scope_manager.scopes@.last().blocks == old(
                self,
            ).scope_manager.scopes@.last().blocks,
        decreases fuel, 1int,
    {
        let mut wfuel: u64 = fuel;
        loop
            invariant
                self.wf(),
                self.scope_manager.scopes@.len() >= 1,
                wfuel <= fuel,
                ops_frame(*old(self), *self),
                self.scope_manager.scopes@.last().locals == old(
                    self,
                ).scope_manager.scopes@.last().locals,
                self.scope_manager.scopes@.last().blocks == old(
                    self,
                ).scope_manager.scopes@.last().blocks,
            decreases wfuel,
        {
            if wfuel == 0 {
                return Err(VMError::OutOfFuel);
            }
            wfuel = wfuel - 1;
            let val = match self.pop() {
                Ok(v) => v,
                Err(e) => {
                    return Err(e);
                },
            };
            match val {
                Value::Boolean(true) => {
                    let ghost before_call = *self;
                    let res = self.run_block(target, wfuel);
                    proof {
                        assert(scope_still(
                            before_call.scope_manager.scopes@[before_call.scope_manager.scopes@.len()
                                - 1],
                            self.scope_manager.scopes@[self.scope_manager.scopes@.len() - 1],
                        ));
                    }
                    match res {
                        Ok(true) => {
                            return Ok(());
                        },
                        Ok(false) => {},
                        Err(e) => {
                            return Err(e);
                        },
                    }
                },
                _ => {
                    return Ok(());
                },
            }
        }
    }
}

impl Default for VM {
    fn default() -> (r: Self)
        ensures
            r.wf(),
            r.options == (VMOptions {
                debug_stack: false,
                enable_gc: true,
                debug_gc: false,
                debug_calls: false,
            }),
    {
        VM::new(VMOptions::new())
    }
}


/// What a native that never touches scopes or the call stack preserves.
pub open spec fn natives_still(pre: VM, post: VM) -> bool {
    &&& post.wf()
    &&& post.call_stack == pre.call_stack
    &&& post.scope_manager == pre.scope_manager
    &&& post.options == pre.options
    &&& post.heap.spec_gc() == pre.heap.spec_gc()
    &&& post.heap.spec_debug() == pre.heap.spec_debug()
}


/// The owner of a name depends only on each scope's locals.
pub proof fn lemma_owner_scope_locals(pre: Seq<Scope>, post: Seq<Scope>, name: Seq<char>)
    requires
        post.len() == pre.len(),
        forall|j: int| 0 <= j < pre.len() ==> (#[trigger] post[j]).locals == pre[j].locals,
    ensures
        owner_scope(post, name) == owner_scope(pre, name),
    decreases pre.len(),
{
    if pre.len() > 0 {
        assert(post.last().locals == pre.last().locals);
        assert(post.last().spec_has_local(name) == pre.last().spec_has_local(name));
        assert forall|j: int|
            0 <= j < pre.drop_last().len() implies (#[trigger] post.drop_last()[j]).locals
            == pre.drop_last()[j].locals by {
            assert(post.drop_last()[j] == post[j]);
        }
        lemma_owner_scope_locals(pre.drop_last(), post.drop_last(), name);
    }
}

/// Law (single evaluation, the caching half): storing a value for a
/// name and looking the name up straight away yields that value. The
/// store leaves every scope's locals alone, so the name's owner stays
/// the same, and the owner's cache now maps the name to the stored
/// value; `ScopeManager::add_single_eval` promises exactly the shape
/// this takes as hypotheses, and `lookup_single_eval` then promises the
/// stored value back.
pub proof fn lemma_single_eval_store_then_lookup(
    pre: Seq<Scope>,
    post: Seq<Scope>,
    name: Seq<char>,
    v: ValueView,
)
    requires
        owner_scope(pre, name) is Some,
        post.len() == pre.len(),
        ({
            let i = owner_scope(pre, name)->Some_0;
            &&& forall|j: int| 0 <= j < pre.len() && j != i ==> post[j] == pre[j]
            &&& post[i].locals == pre[i].locals
            &&& post[i].single_evals.as_map() == pre[i].single_evals.as_map().insert(name, v)
        }),
    ensures
        owner_scope(post, name) == owner_scope(pre, name),
        post[owner_scope(post, name)->Some_0].single_evals.as_map().contains_key(name),
        post[owner_scope(post, name)->Some_0].single_evals.as_map()[name] == v,
{
    lemma_owner_scope(pre, name);
    assert forall|j: int|
        0 <= j < pre.len() implies (#[trigger] post[j]).locals == pre[j].locals by {
        if j != owner_scope(pre, name)->Some_0 {
            assert(post[j] == pre[j]);
        }
    }
    lemma_owner_scope_locals(pre, post, name);
}

} // verus!
