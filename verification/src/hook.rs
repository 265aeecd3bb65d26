use crate::base::Base;
use sharded_slab::Slab;
use std::sync::Mutex;
use vstd::prelude::*;
use vstd::slice::slice_to_vec;

verus! {

/// Width of the prologue that installing a hook displaces: the fixed number
/// of bytes saved from the target and restored on unhook.
pub const PROLOGUE_SIZE: usize = 10;

/// The keys of the live entries in a slab of stored hook logic.
pub uninterp spec fn slab_keys(s: LogicSlab) -> Set<usize>;

/// Storage for the type-erased logic of the live hooks, keyed by slot index.
/// Each entry carries its own lock, so running one hook's logic cannot race
/// its removal.
#[verifier::external_body]
pub struct LogicSlab {
    slab: Slab<Mutex<Box<dyn FnMut() + Send>>>,
}

impl LogicSlab {
    /// Relies on `sharded_slab::Slab::new`: a fresh slab has no live entries.
    #[verifier::external_body]
    fn new() -> (r: LogicSlab)
        ensures
            slab_keys(r) == Set::<usize>::empty(),
    {
        LogicSlab { slab: Slab::new() }
    }

    /// Relies on `sharded_slab::Slab::insert`: the value is stored under a
    /// key held by no live entry, or nothing changes and `None` comes back
    /// when the slab is out of space.
    #[verifier::external_body]
    fn insert_logic<F: FnMut() + Send + 'static>(&mut self, f: F) -> (r: Option<usize>)
        ensures
            match r {
                Some(k) => !slab_keys(*old(self)).contains(k) && slab_keys(*final(self))
                    == slab_keys(*old(self)).insert(k),
                None => slab_keys(*final(self)) == slab_keys(*old(self)),
            },
    {
        self.slab.insert(Mutex::new(Box::new(f)))
    }

    /// Relies on `sharded_slab::Slab::remove`: the entry under the key is
    /// deleted, and the report says whether one was live.
    #[verifier::external_body]
    fn remove_logic(&mut self, key: usize) -> (r: bool)
        ensures
            r == slab_keys(*old(self)).contains(key),
            slab_keys(*final(self)) == slab_keys(*old(self)).remove(key),
    {
        self.slab.remove(key)
    }

    /// Relies on `sharded_slab::Slab::get` and `std::sync::Mutex::lock`: the
    /// logic stored under the key is run under its entry's lock if the key
    /// is live, and the report says whether it was.
    #[verifier::external_body]
    fn invoke_logic(&mut self, key: usize) -> (r: bool)
        ensures
            r == slab_keys(*old(self)).contains(key),
            slab_keys(*final(self)) == slab_keys(*old(self)),
    {
        match self.slab.get(key) {
            Some(entry) => {
                if let Ok(mut f) = entry.lock() {
                    (*f)();
                }
                true
            },
            None => false,
        }
    }
}

/// The error a failed hook installation reports.
#[derive(Debug, Clone, Copy, PartialEq, Eq, Structural)]
pub enum HookError {
    /// The target already carries a hook.
    AlreadyHooked,
    /// Every slot of the table is in use.
    TableFull,
}

/// Index of the first entry holding `slot` at or after `from`, or the length
/// when none does.
pub open spec fn spec_entry_index_from(entries: Seq<(usize, usize)>, slot: usize, from: int) -> int
    decreases entries.len() - from + 1,
{
    if from < 0 || from >= entries.len() {
        entries.len() as int
    } else if entries[from].0 == slot {
        from
    } else {
        spec_entry_index_from(entries, slot, from + 1)
    }
}

/// Index of the first entry holding `slot`, or the length when none does.
pub open spec fn spec_entry_index(entries: Seq<(usize, usize)>, slot: usize) -> int {
    spec_entry_index_from(entries, slot, 0)
}

proof fn lemma_entry_index_from(entries: Seq<(usize, usize)>, slot: usize, i: int)
    requires
        0 <= i <= entries.len(),
        forall|j: int| 0 <= j < i ==> (#[trigger] entries[j]).0 != slot,
        i < entries.len() ==> entries[i].0 == slot,
    ensures
        spec_entry_index(entries, slot) == i,
{
    lemma_entry_index_from_rec(entries, slot, 0, i);
}

proof fn lemma_entry_index_from_rec(entries: Seq<(usize, usize)>, slot: usize, from: int, i: int)
    requires
        0 <= from <= i <= entries.len(),
        forall|j: int| from <= j < i ==> (#[trigger] entries[j]).0 != slot,
        i < entries.len() ==> entries[i].0 == slot,
    ensures
        spec_entry_index_from(entries, slot, from) == i,
    decreases i - from,
{
    if from < i {
        lemma_entry_index_from_rec(entries, slot, from + 1, i);
    }
}

/// The table of live hooks: each entry binds a slot of stored logic to the
/// address of the target it hooks.
pub struct HookTable {
    logic: LogicSlab,
    entries: Vec<(usize, usize)>,
}

impl HookTable {
    /// The live entries: pairs of slot index and target address, in the
    /// order the hooks were installed.
    pub closed spec fn spec_entries(&self) -> Seq<(usize, usize)> {
        self.entries@
    }

    /// The keys of the live slots of stored logic.
    pub closed spec fn slots(&self) -> Set<usize> {
        slab_keys(self.logic)
    }

    /// Some live hook binds the address `addr`.
    pub open spec fn is_hooked(&self, addr: usize) -> bool {
        exists|i: int|
            0 <= i < self.spec_entries().len() && (#[trigger] self.spec_entries()[i]).1 == addr
    }

    /// Some live hook holds the slot `slot`.
    pub open spec fn has_slot(&self, slot: usize) -> bool {
        exists|i: int|
            0 <= i < self.spec_entries().len() && (#[trigger] self.spec_entries()[i]).0 == slot
    }

    /// A live hook binds exactly `slot` to `addr`.
    pub open spec fn has_entry(&self, slot: usize, addr: usize) -> bool {
        exists|i: int|
            0 <= i < self.spec_entries().len() && #[trigger] self.spec_entries()[i] == (slot, addr)
    }

    /// No two live hooks share a slot or a target, and every entry's slot is
    /// live in the logic storage.
    pub open spec fn wf(&self) -> bool {
        &&& forall|i: int, j: int|
            #![trigger self.spec_entries()[i], self.spec_entries()[j]]
            0 <= i < j < self.spec_entries().len() ==> self.spec_entries()[i].0
                != self.spec_entries()[j].0 && self.spec_entries()[i].1
                != self.spec_entries()[j].1
        &&& forall|i: int|
            0 <= i < self.spec_entries().len() ==> self.slots().contains(
                (#[trigger] self.spec_entries()[i]).0,
            )
    }

    /// An empty table.
    pub fn new() -> (r: HookTable)
        ensures
            r.wf(),
            r.spec_entries() == Seq::<(usize, usize)>::empty(),
            r.slots() == Set::<usize>::empty(),
    {
        HookTable { logic: LogicSlab::new(), entries: Vec::new() }
    }

    /// Installs a hook on `target`: stores `f` in a fresh slot, records the
    /// binding, and returns the guard that owns it, holding the displaced
    /// prologue bytes. Fails with `AlreadyHooked` exactly when a live hook
    /// already binds `target`, and with `TableFull` when the logic storage
    /// has no free slot; in both cases the table is unchanged.
    #[verifier::loop_isolation(false)]
    pub fn hook_target<F: FnMut() + Send + 'static>(
        &mut self,
        target: Base,
        prologue: &[u8],
        f: F,
    ) -> (r: Result<HookGuard, HookError>)
        requires
            old(self).wf(),
            prologue@.len() == PROLOGUE_SIZE,
        ensures
            final(self).wf(),
            match r {
                Ok(g) => {
                    &&& !old(self).is_hooked(target@)
                    &&& g.wf()
                    &&& g.spec_armed()
                    &&& g.spec_target() == target
                    &&& g.spec_saved() == prologue@
                    &&& !old(self).slots().contains(g.spec_slot())
                    &&& final(self).spec_entries() == old(self).spec_entries().push(
                        (g.spec_slot(), target@),
                    )
                    &&& final(self).slots() == old(self).slots().insert(g.spec_slot())
                },
                Err(HookError::AlreadyHooked) => {
                    &&& old(self).is_hooked(target@)
                    &&& final(self).spec_entries() == old(self).spec_entries()
                    &&& final(self).slots() == old(self).slots()
                },
                Err(HookError::TableFull) => {
                    &&& !old(self).is_hooked(target@)
                    &&& final(self).spec_entries() == old(self).spec_entries()
                    &&& final(self).slots() == old(self).slots()
                },
            },
    {
        let addr = target.addr();
        let n = self.entries.len();
        let mut i: usize = 0;
        while i < n
            invariant
                n == self.spec_entries().len(),
                0 <= i <= n,
                addr == target@,
                forall|j: int| 0 <= j < i ==> (#[trigger] self.spec_entries()[j]).1 != addr,
            decreases n - i,
        {
            if self.entries[i].1 == addr {
                return Err(HookError::AlreadyHooked);
            }
            i = i + 1;
        }
        match self.logic.insert_logic(f) {
            None => Err(HookError::TableFull),
            Some(slot) => {
                self.entries.push((slot, addr));
                proof {
                    let oe = old(self).spec_entries();
                    let ne = self.spec_entries();
                    assert forall|a: int, b: int|
                        #![trigger ne[a], ne[b]]
                        0 <= a < b < ne.len() implies ne[a].0 != ne[b].0 && ne[a].1
                        != ne[b].1 by {
                        if b < oe.len() {
                            assert(ne[a] == oe[a]);
                            assert(ne[b] == oe[b]);
                        } else {
                            assert(ne[b] == (slot, addr));
                            assert(ne[a] == oe[a]);
                            assert(old(self).slots().contains(oe[a].0));
                        }
                    }
                    assert forall|a: int| 0 <= a < ne.len() implies self.slots().contains(
                        (#[trigger] ne[a]).0,
                    ) by {
                        if a < oe.len() {
                            assert(ne[a] == oe[a]);
                            assert(old(self).slots().contains(oe[a].0));
                        }
                    }
                }
                Ok(
                    HookGuard {
                        target,
                        bytes: slice_to_vec(prologue),
                        index: slot,
                        armed: true,
                    },
                )
            },
        }
    }

    /// Reports whether a live hook binds `target`.
    #[verifier::loop_isolation(false)]
    pub fn hooked(&self, target: Base) -> (r: bool)
        ensures
            r == self.is_hooked(target@),
    {
        let addr = target.addr();
        let n = self.entries.len();
        let mut i: usize = 0;
        while i < n
            invariant
                n == self.spec_entries().len(),
                0 <= i <= n,
                addr == target@,
                forall|j: int| 0 <= j < i ==> (#[trigger] self.spec_entries()[j]).1 != addr,
            decreases n - i,
        {
            if self.entries[i].1 == addr {
                return true;
            }
            i = i + 1;
        }
        false
    }

    /// Runs the logic stored in `slot`, if that slot is live, and reports
    /// whether it was. The table itself is unchanged.
    pub fn invoke(&mut self, slot: usize) -> (r: bool)
        ensures
            r == old(self).slots().contains(slot),
            final(self).spec_entries() == old(self).spec_entries(),
            final(self).slots() == old(self).slots(),
    {
        self.logic.invoke_logic(slot)
    }
}

/// A single-owner handle to one installed hook. Dropping the binding without
/// `unhook` leaves the table entry live; releasing it through `unhook`
/// removes the entry and reports the displaced bytes to restore, and doing
/// so twice is a no-op.
#[derive(Debug)]
pub struct HookGuard {
    target: Base,
    bytes: Vec<u8>,
    index: usize,
    armed: bool,
}

impl HookGuard {
    /// The hooked target.
    pub closed spec fn spec_target(&self) -> Base {
        self.target
    }

    /// The displaced prologue bytes.
    pub closed spec fn spec_saved(&self) -> Seq<u8> {
        self.bytes@
    }

    /// The slot this guard owns.
    pub closed spec fn spec_slot(&self) -> usize {
        self.index
    }

    /// Whether this guard still holds a live table entry.
    pub closed spec fn spec_armed(&self) -> bool {
        self.armed
    }

    /// The guard holds exactly the displaced prologue.
    pub open spec fn wf(&self) -> bool {
        self.spec_saved().len() == PROLOGUE_SIZE
    }

    /// The hooked target.
    pub fn target(&self) -> (r: Base)
        ensures
            r == self.spec_target(),
    {
        self.target
    }

    /// The displaced prologue bytes, to be written back on restoration.
    pub fn saved(&self) -> (r: &Vec<u8>)
        ensures
            r@ == self.spec_saved(),
    {
        &self.bytes
    }

    /// The slot this guard owns.
    pub fn slot(&self) -> (r: usize)
        ensures
            r == self.spec_slot(),
    {
        self.index
    }

    /// Whether this guard still holds a live table entry.
    pub fn is_armed(&self) -> (r: bool)
        ensures
            r == self.spec_armed(),
    {
        self.armed
    }

    /// Releases this guard's hook: removes its entry and its stored logic
    /// from the table, after which the saved prologue is to be written back
    /// to the target. On a guard already released, nothing changes: a second
    /// unhook is a no-op, never a fault.
    #[verifier::loop_isolation(false)]
    pub fn unhook(&mut self, table: &mut HookTable)
        requires
            old(table).wf(),
            old(self).spec_armed() ==> old(table).has_entry(
                old(self).spec_slot(),
                old(self).spec_target()@,
            ),
        ensures
            final(table).wf(),
            !final(self).spec_armed(),
            final(self).spec_target() == old(self).spec_target(),
            final(self).spec_saved() == old(self).spec_saved(),
            final(self).spec_slot() == old(self).spec_slot(),
            old(self).spec_armed() ==> {
                &&& final(table).spec_entries() == old(table).spec_entries().remove(
                    spec_entry_index(old(table).spec_entries(), old(self).spec_slot()),
                )
                &&& final(table).slots() == old(table).slots().remove(old(self).spec_slot())
                &&& !final(table).has_slot(old(self).spec_slot())
                &&& !final(table).is_hooked(old(self).spec_target()@)
            },
            !old(self).spec_armed() ==> {
                &&& final(table).spec_entries() == old(table).spec_entries()
                &&& final(table).slots() == old(table).slots()
            },
    {
        if !self.armed {
            return ;
        }
        self.armed = false;
        let slot = self.index;
        let addr = self.target.addr();
        table.logic.remove_logic(slot);
        let n = table.entries.len();
        let mut i: usize = 0;
        while i < n
            invariant
                n == table.spec_entries().len(),
                0 <= i <= n,
                table.spec_entries() == old(table).spec_entries(),
                table.slots() == old(table).slots().remove(slot),
                forall|j: int| 0 <= j < i ==> (#[trigger] table.spec_entries()[j]).0 != slot,
            decreases n - i,
        {
            if table.entries[i].0 == slot {
                proof {
                    lemma_entry_index_from(table.spec_entries(), slot, i as int);
                }
                table.entries.remove(i);
                proof {
                    let ix = i as int;
                    let oe = old(table).spec_entries();
                    let ne = table.spec_entries();
                    oe.remove_ensures(ix);
                    assert(old(table).has_entry(slot, addr));
                    let k = choose|k: int|
                        0 <= k < oe.len() && #[trigger] oe[k] == (slot, addr);
                    assert(oe[ix].0 == slot && oe[k].0 == slot);
                    assert(oe[ix] == (slot, addr));
                    assert forall|a: int, b: int|
                        #![trigger ne[a], ne[b]]
                        0 <= a < b < ne.len() implies ne[a].0 != ne[b].0 && ne[a].1
                        != ne[b].1 by {
                        let a0 = if a < ix { a } else { a + 1 };
                        let b0 = if b < ix { b } else { b + 1 };
                        assert(ne[a] == oe[a0]);
                        assert(ne[b] == oe[b0]);
                    }
                    assert forall|a: int| 0 <= a < ne.len() implies table.slots().contains(
                        (#[trigger] ne[a]).0,
                    ) && ne[a].0 != slot && ne[a].1 != addr by {
                        let a0 = if a < ix { a } else { a + 1 };
                        assert(ne[a] == oe[a0]);
                        assert(old(table).slots().contains(oe[a0].0));
                        assert(oe[a0].0 != slot && oe[a0].1 != addr);
                    }
                }
                return ;
            }
            i = i + 1;
        }
        proof {
            assert(old(table).has_entry(slot, addr));
            let k = choose|k: int|
                0 <= k < old(table).spec_entries().len() && #[trigger] old(
                    table,
                ).spec_entries()[k] == (slot, addr);
            assert(table.spec_entries()[k].0 == slot);
            assert(false);
        }
    }
}

/// Installing a hook in a fresh slot and then releasing it leaves the
/// table's entries exactly as they were: the released entry is the one the
/// installation appended, and removing it undoes the append.
pub proof fn lemma_table_round_trip(entries: Seq<(usize, usize)>, slot: usize, addr: usize)
    requires
        forall|i: int| 0 <= i < entries.len() ==> (#[trigger] entries[i]).0 != slot,
    ensures
        spec_entry_index(entries.push((slot, addr)), slot) == entries.len(),
        entries.push((slot, addr)).remove(entries.len() as int) == entries,
{
    let pushed = entries.push((slot, addr));
    assert forall|j: int| 0 <= j < entries.len() implies (#[trigger] pushed[j]).0 != slot by {
        assert(pushed[j] == entries[j]);
    }
    lemma_entry_index_from(pushed, slot, entries.len() as int);
    assert(pushed.remove(entries.len() as int) =~= entries);
}

/// The spliced result of writing `p` over `s` at `off`.
pub open spec fn spliced(s: Seq<u8>, off: int, p: Seq<u8>) -> Seq<u8> {
    s.subrange(0, off) + p + s.subrange(off + p.len(), s.len() as int)
}

/// Writes `patch` over `code` at `offset`, returning the displaced bytes.
///
/// This is the whole of the engine's byte surgery: installing a redirect and
/// restoring a prologue are both one call of this operation.
#[verifier::loop_isolation(false)]
pub fn write_patch(code: &mut Vec<u8>, offset: usize, patch: &[u8]) -> (saved: Vec<u8>)
    requires
        offset + patch@.len() <= old(code)@.len(),
    ensures
        saved@ == old(code)@.subrange(offset as int, offset + patch@.len()),
        final(code)@ == spliced(old(code)@, offset as int, patch@),
{
    let mut saved: Vec<u8> = Vec::new();
    let m = patch.len();
    let n = code.len();
    let mut i: usize = 0;
    while i < m
        invariant
            m == patch@.len(),
            0 <= i <= m,
            offset + m <= n,
            code@.len() == n,
            saved@.len() == i,
            forall|j: int| 0 <= j < i ==> saved@[j] == old(code)@[offset + j],
            forall|j: int| 0 <= j < i ==> code@[offset + j] == patch@[j],
            forall|j: int|
                0 <= j < code@.len() && !(offset <= j < offset + i) ==> code@[j] == old(
                    code,
                )@[j],
        decreases m - i,
    {
        let b = code[offset + i];
        saved.push(b);
        code[offset + i] = patch[i];
        i = i + 1;
    }
    proof {
        assert(saved@ =~= old(code)@.subrange(offset as int, offset + patch@.len()));
        assert(code@ =~= spliced(old(code)@, offset as int, patch@));
    }
    saved
}

/// Writing a patch and then writing back the bytes it displaced restores
/// the code byte for byte: a hook that is installed and then released
/// leaves its target exactly as it was.
pub proof fn lemma_patch_round_trip(s: Seq<u8>, off: int, p: Seq<u8>)
    requires
        0 <= off,
        off + p.len() <= s.len(),
    ensures
        spliced(spliced(s, off, p), off, s.subrange(off, off + p.len() as int)) == s,
{
    assert(spliced(spliced(s, off, p), off, s.subrange(off, off + p.len() as int)) =~= s);
}

/// Hook installation for the shapes that can stand as a target. The target
/// names an address; installing binds caller logic to it in a table and
/// yields the guard that restores it.
pub trait Hook<F>: Copy {
    /// The address this target stands at.
    spec fn target_base(self) -> Base;

    /// Installs `f` over this target in `table`; see
    /// `HookTable::hook_target` for the exact contract.
    fn hook(self, table: &mut HookTable, prologue: &[u8], f: F) -> (r: Result<
        HookGuard,
        HookError,
    >)
        requires
            old(table).wf(),
            prologue@.len() == PROLOGUE_SIZE,
        ensures
            final(table).wf(),
            match r {
                Ok(g) => {
                    &&& !old(table).is_hooked(self.target_base()@)
                    &&& g.wf()
                    &&& g.spec_armed()
                    &&& g.spec_target() == self.target_base()
                    &&& g.spec_saved() == prologue@
                    &&& !old(table).slots().contains(g.spec_slot())
                    &&& final(table).spec_entries() == old(table).spec_entries().push(
                        (g.spec_slot(), self.target_base()@),
                    )
                    &&& final(table).slots() == old(table).slots().insert(g.spec_slot())
                },
                Err(HookError::AlreadyHooked) => {
                    &&& old(table).is_hooked(self.target_base()@)
                    &&& final(table).spec_entries() == old(table).spec_entries()
                    &&& final(table).slots() == old(table).slots()
                },
                Err(HookError::TableFull) => {
                    &&& !old(table).is_hooked(self.target_base()@)
                    &&& final(table).spec_entries() == old(table).spec_entries()
                    &&& final(table).slots() == old(table).slots()
                },
            },
    ;
}

impl<F: FnMut() + Send + 'static> Hook<F> for Base {
    open spec fn target_base(self) -> Base {
        self
    }

    fn hook(self, table: &mut HookTable, prologue: &[u8], f: F) -> (r: Result<
        HookGuard,
        HookError,
    >) {
        table.hook_target(self, prologue, f)
    }
}

} // verus!
