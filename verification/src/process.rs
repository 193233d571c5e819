//! The owner aggregates the core runs against: a process with its heap and
//! pid, and the VM carrying the global atom table. The core reads nothing
//! else from them.

use vstd::prelude::*;

use crate::atoms::AtomTable;
use crate::heap::Heap;
use crate::lterm::IMM_LIMIT;

verus! {

pub struct Process {
    pub heap: Heap,
    pub pid: u64,
}

impl Process {
    pub open spec fn inv(&self) -> bool {
        &&& self.heap.inv()
        &&& self.pid < IMM_LIMIT
    }

    pub fn new(pid: u64, heap_capacity: usize, n_y_slots: usize) -> (r: Process)
        requires
            pid < IMM_LIMIT,
            heap_capacity as int <= 0x1000_0000_0000,
            n_y_slots <= heap_capacity,
        ensures
            r.inv(),
            r.pid == pid,
            r.heap@.words.len() == 0,
            r.heap.capacity == heap_capacity,
            r.heap.ys@.len() == n_y_slots,
    {
        Process { heap: Heap::new(heap_capacity, n_y_slots), pid }
    }
}

pub struct VM {
    pub atoms: AtomTable,
}

impl VM {
    pub fn new() -> (r: VM)
        ensures
            r.atoms@.len() == crate::atoms::N_STANDARD_ATOMS,
    {
        VM { atoms: AtomTable::new_standard() }
    }
}

} // verus!
