//! An optional host for several machines, each with its own stacks and
//! heap, addressed by an opaque thread number with a message mailbox.
use crate::blocks::Blocks;
use crate::machine::{Message, VMError, VM};
use crate::value::Value;
use vstd::prelude::*;

verus! {

/// Errors of the supervisor.
#[derive(Debug, Clone, Copy, PartialEq, Eq, Structural)]
pub enum ThreadSupervisorError {
    UnknownThread(u32),
}

/// The host: machines by thread number, and the last number handed out.
pub struct ThreadSupervisor {
    threads: Vec<(u32, VM)>,
    increment: u32,
}

impl ThreadSupervisor {
    /// The supervised machines, in the order they arrived.
    pub closed spec fn spec_threads(&self) -> Seq<(u32, VM)> {
        self.threads@
    }

    /// The last thread number handed out.
    pub closed spec fn spec_increment(&self) -> u32 {
        self.increment
    }

    /// Thread numbers are distinct and never above the counter.
    pub open spec fn wf(&self) -> bool {
        &&& forall|i: int, j: int|
            0 <= i < j < self.spec_threads().len() ==> (#[trigger] self.spec_threads()[i]).0 != (
            #[trigger] self.spec_threads()[j]).0
        &&& forall|i: int|
            0 <= i < self.spec_threads().len() ==> (#[trigger] self.spec_threads()[i]).0
                <= self.spec_increment()
        &&& forall|i: int|
            0 <= i < self.spec_threads().len() ==> (#[trigger] self.spec_threads()[i]).1.wf()
    }

    pub fn new() -> (r: Self)
        ensures
            r.wf(),
            r.spec_threads() =~= Seq::<(u32, VM)>::empty(),
            r.spec_increment() == 0,
    {
        ThreadSupervisor { threads: Vec::new(), increment: 0 }
    }

    /// The index of a thread number.
    fn find(&self, id: u32) -> (r: Option<usize>)
        ensures
            match r {
                Some(i) => i < self.spec_threads().len() && self.spec_threads()[i as int].0 == id,
                None => forall|i: int|
                    0 <= i < self.spec_threads().len() ==> (#[trigger] self.spec_threads()[i]).0
                        != id,
            },
    {
        let n = self.threads.len();
        let mut i: usize = 0;
        while i < n
            invariant
                n == self.spec_threads().len(),
                i <= n,
                forall|j: int| 0 <= j < i ==> (#[trigger] self.spec_threads()[j]).0 != id,
            decreases n - i,
        {
            if self.threads[i].0 == id {
                return Some(i);
            }
            i = i + 1;
        }
        None
    }

    /// Takes a machine in, gives it a fresh thread number and an empty
    /// mailbox, and returns the number.
    pub fn supervise(&mut self, vm: VM) -> (r: Result<u32, ThreadSupervisorError>)
        requires
            old(self).wf(),
            vm.wf(),
            old(self).spec_increment() < u32::MAX,
        ensures
            final(self).wf(),
            r matches Ok(id) ==> {
                &&& id == old(self).spec_increment() + 1
                &&& final(self).spec_increment() == id
                &&& final(self).spec_threads().len() == old(self).spec_threads().len() + 1
                &&& forall|i: int|
                    0 <= i < old(self).spec_threads().len() ==> final(self).spec_threads()[i]
                        == old(self).spec_threads()[i]
                &&& final(self).spec_threads().last().0 == id
                &&& final(self).spec_threads().last().1.thread_id == Some(id)
                &&& final(self).spec_threads().last().1.message_stack matches Some(ms)
                    && ms@.len() == 0
                &&& final(self).spec_threads().last().1.stack == vm.stack
                &&& final(self).spec_threads().last().1.heap == vm.heap
                &&& final(self).spec_threads().last().1.options == vm.options
                &&& final(self).spec_threads().last().1.scope_manager == vm.scope_manager
            },
            r is Ok,
    {
        let mut vm = vm;
        let id = self.increment + 1;
        self.increment = id;
        vm.thread_id = Some(id);
        vm.message_stack = Some(Vec::new());
        self.threads.push((id, vm));
        Ok(id)
    }

    /// Appends a message to a supervised machine's mailbox; an unknown
    /// number, or a machine without a mailbox, is refused.
    pub fn send_message(&mut self, value: Value, to: u32, from: u32) -> (r: Result<
        (),
        ThreadSupervisorError,
    >)
        requires
            old(self).wf(),
        ensures
            final(self).wf(),
            final(self).spec_increment() == old(self).spec_increment(),
            final(self).spec_threads().len() == old(self).spec_threads().len(),
            r is Err ==> r == Result::<(), ThreadSupervisorError>::Err(
                ThreadSupervisorError::UnknownThread(to),
            ) && final(self).spec_threads() == old(self).spec_threads(),
            (forall|i: int|
                0 <= i < old(self).spec_threads().len() ==> (#[trigger] old(self).spec_threads()[i]).0 != to) ==> r is Err,
            r is Ok ==> exists|i: int|
                0 <= i < old(self).spec_threads().len() && (#[trigger] old(self).spec_threads()[i]).0 == to && (forall|j: int|
                    0 <= j < old(self).spec_threads().len() && j != i ==> final(self).spec_threads()[j] == old(self).spec_threads()[j]) && final(self).spec_threads()[i].0 == to && (old(self).spec_threads()[i].1.message_stack
                    matches Some(ms0) && final(self).spec_threads()[i].1.message_stack
                    matches Some(ms1) && ms1@ == ms0@.push(Message { from, content: value }))
                    && final(self).spec_threads()[i].1.stack == old(self).spec_threads()[i].1.stack
                    && final(self).spec_threads()[i].1.heap == old(self).spec_threads()[i].1.heap
                    && final(self).spec_threads()[i].1.scope_manager == old(self).spec_threads()[i].1.scope_manager && final(self).spec_threads()[i].1.call_stack
                    == old(self).spec_threads()[i].1.call_stack && final(self).spec_threads()[i].1.options == old(self).spec_threads()[i].1.options,
    {
        let i = match self.find(to) {
            Some(i) => i,
            None => {
                return Err(ThreadSupervisorError::UnknownThread(to));
            },
        };
        let entry = vstd::std_specs::vec::vec_index_mut(&mut self.threads, i);
        match &mut entry.1.message_stack {
            Some(ms) => {
                ms.push(Message { from, content: value });
                Ok(())
            },
            None => Err(ThreadSupervisorError::UnknownThread(to)),
        }
    }

    /// The machine behind a thread number.
    pub fn get_thread(&self, id: u32) -> (r: Option<&VM>)
        ensures
            match r {
                Some(vm) => exists|i: int|
                    0 <= i < self.spec_threads().len() && (#[trigger] self.spec_threads()[i]).0
                        == id && *vm == self.spec_threads()[i].1,
                None => forall|i: int|
                    0 <= i < self.spec_threads().len() ==> (#[trigger] self.spec_threads()[i]).0
                        != id,
            },
    {
        match self.find(id) {
            Some(i) => Some(&self.threads[i].1),
            None => None,
        }
    }

    /// A changeable hold of the machine behind a thread number; the
    /// host stays well-formed as long as the borrower leaves the
    /// machine well-formed.
    pub fn get_thread_mut(&mut self, id: u32) -> (r: Option<&mut VM>)
        requires
            old(self).wf(),
        ensures
            match r {
                Some(vm) => {
                    &&& exists|i: int|
                        0 <= i < old(self).spec_threads().len() && (#[trigger] old(self).spec_threads()[i]).0 == id && *vm == old(self).spec_threads()[i].1 && final(self).spec_threads() == old(self).spec_threads().update(i, (id, *final(vm)))
                    &&& final(self).spec_increment() == old(self).spec_increment()
                    &&& (final(vm).wf() ==> final(self).wf())
                },
                None => *final(self) == *old(self) && (forall|i: int|
                    0 <= i < old(self).spec_threads().len() ==> (#[trigger] old(self).spec_threads()[i]).0 != id),
            },
    {
        match self.find(id) {
            Some(i) => {
                let entry = vstd::std_specs::vec::vec_index_mut(&mut self.threads, i);
                proof {
                    assert(old(self).spec_threads()[i as int].0 == id);
                }
                Some(&mut entry.1)
            },
            None => None,
        }
    }

    /// Runs a supervised machine to its entry block.
    pub fn run_blocking(&mut self, id: u32, block: &String, blocks: Blocks) -> (r: Result<
        (),
        VMError,
    >)
        requires
            old(self).wf(),
            blocks.wf(),
        ensures
            final(self).wf(),
            final(self).spec_increment() == old(self).spec_increment(),
            final(self).spec_threads().len() == old(self).spec_threads().len(),
            (forall|i: int|
                0 <= i < old(self).spec_threads().len() ==> (#[trigger] old(self).spec_threads()[i]).0 != id) ==> r == Result::<(), VMError>::Err(
                VMError::SupervisorError(ThreadSupervisorError::UnknownThread(id)),
            ) && *final(self) == *old(self),
            (exists|i: int|
                0 <= i < old(self).spec_threads().len() && (#[trigger] old(self).spec_threads()[i]).0 == id) ==> exists|i: int|
                0 <= i < old(self).spec_threads().len() && (#[trigger] old(self).spec_threads()[i]).0 == id && (forall|j: int|
                    0 <= j < old(self).spec_threads().len() && j != i ==> final(self).spec_threads()[j] == old(self).spec_threads()[j]) && final(self).spec_threads()[i].1.balanced() && final(self).spec_threads()[i].1.scope_manager.scopes@.len() == 1,
    {
        let i = match self.find(id) {
            Some(i) => i,
            None => {
                return Err(VMError::SupervisorError(ThreadSupervisorError::UnknownThread(id)));
            },
        };
        let entry = vstd::std_specs::vec::vec_index_mut(&mut self.threads, i);
        proof {
            assert(old(self).spec_threads()[i as int].0 == id);
        }
        let vm = &mut entry.1;
        match vm.run(block, blocks) {
            Ok(_) => Ok(()),
            Err(e) => Err(e),
        }
    }
}

impl Default for ThreadSupervisor {
    fn default() -> (r: Self)
        ensures
            r.wf(),
            r.spec_threads() =~= Seq::<(u32, VM)>::empty(),
            r.spec_increment() == 0,
    {
        ThreadSupervisor::new()
    }
}

} // verus!
