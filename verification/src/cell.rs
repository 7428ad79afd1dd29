//! Strong handles: ownership of one retain-count unit on one object.
//!
//! A [`StrongCell`] is the owning handle of the layer.  It is a linear
//! value: the one release it owes is paid by consuming the handle in
//! [`StrongCell::release`], so a handle can neither release twice nor be
//! used after it has released.  Transfers of ownership — the checked cast
//! and the cast to a mutable handle — likewise consume the handle they
//! start from and leave the retain count untouched.

use vstd::prelude::*;

use crate::base::{CFType, CFTypeID, CFTypeWithBaseType};
use crate::heap::{spec_desc, CFHeap, CFObj};

verus! {

/// A strong handle: holds one retain-count unit of the object at `id`.
///
/// The handle's validity — that its slot is allocated and its count still
/// backs this handle — is a caller-upheld precondition stated on every
/// operation, exactly as the unchecked constructors document.
#[derive(Debug)]
pub struct StrongCell<T: CFType> {
    obj: T,
}

/// The failure of a checked cast: the expected and actual type
/// identifiers, and the untouched original handle, whose one release is
/// still owed by whoever holds it.
#[derive(Debug)]
pub struct TypeMismatch<T: CFType> {
    pub expected: CFTypeID,
    pub actual: CFTypeID,
    pub original: StrongCell<T>,
}

impl<T: CFType> StrongCell<T> {
    /// The slot index this handle owns a reference to.
    pub closed spec fn id(&self) -> usize {
        self.obj.spec_id()
    }

    /// Wraps a reference that is asserted to be retained already, so the
    /// conversion itself touches no retain count.  The assertion is the
    /// caller's: nothing here can check it.
    pub fn assuming_retained_nonnull(t: T) -> (r: Self)
        ensures
            r.id() == t.spec_id(),
    {
        StrongCell { obj: t }
    }

    /// Retains the referenced object and wraps the new reference: the
    /// object's count rises by one and the new handle owns that unit.
    pub fn retain_assuming_nonnull(heap: &mut CFHeap, t: &T) -> (r: Self)
        requires
            old(heap).allocated(t.spec_id() as int),
            old(heap).count_of(t.spec_id() as int) < u64::MAX,
        ensures
            r.id() == t.spec_id(),
            final(heap)@ == old(heap)@.update(
                t.spec_id() as int,
                CFObj {
                    count: (old(heap).count_of(t.spec_id() as int) + 1) as nat,
                    val: old(heap).val_of(t.spec_id() as int),
                },
            ),
    {
        let id = t.raw();
        heap.retain_at(id);
        StrongCell { obj: T::from_raw(id) }
    }

    /// Checked cast into another category, transferring ownership.
    ///
    /// The cast succeeds exactly when the object's runtime type identifier
    /// equals the target category's expected identifier; the new handle
    /// then denotes the same slot, no retain count changes, and the
    /// object's description is the one it had.  On a mismatch the result
    /// carries the type-mismatch condition and hands the original handle
    /// back; no handle of the target category comes into being.
    pub fn cast_checked<R: CFTypeWithBaseType>(self, heap: &CFHeap) -> (r: Result<
        StrongCell<R>,
        TypeMismatch<T>,
    >)
        requires
            heap.allocated(self.id() as int),
        ensures
            r is Ok <==> heap.tag_of(self.id() as int) == R::spec_type_id(),
            r matches Ok(c) ==> c.id() == self.id(),
            r matches Ok(c) ==> spec_desc(heap.val_of(c.id() as int)) == spec_desc(
                heap.val_of(self.id() as int),
            ),
            r matches Err(e) ==> e.original == self && e.expected == R::spec_type_id()
                && e.actual == heap.tag_of(self.id() as int),
    {
        let id = self.obj.raw();
        let actual = heap.tag_at(id);
        let expected = R::type_id();
        if actual == expected {
            Ok(StrongCell { obj: R::from_raw(id) })
        } else {
            Err(TypeMismatch { expected, actual, original: self })
        }
    }

    /// Casts to a mutable handle, under the caller's assertion that no
    /// other access to the object is live.  Nothing here can check that
    /// assertion; the handle and its owed release carry over unchanged.
    pub fn assuming_mut(self) -> (r: StrongMutCell<T>)
        ensures
            r.id() == self.id(),
    {
        StrongMutCell { obj: self.obj }
    }

    /// Pays the one release this handle owes: the object's count drops by
    /// one and the handle is gone.
    pub fn release(self, heap: &mut CFHeap)
        requires
            old(heap).live(self.id() as int),
        ensures
            final(heap)@ == old(heap)@.update(
                self.id() as int,
                CFObj {
                    count: (old(heap).count_of(self.id() as int) - 1) as nat,
                    val: old(heap).val_of(self.id() as int),
                },
            ),
    {
        let id = self.obj.raw();
        heap.release_at(id);
    }

    /// Borrows the underlying reference for as long as the handle lives.
    pub fn deref(&self) -> (r: &T)
        ensures
            r.spec_id() == self.id(),
    {
        &self.obj
    }
}

/// Law: acquiring one retain-count unit and then paying its one release
/// leaves the storage exactly as it was — each acquisition is balanced by
/// exactly one release, and by nothing more.
pub proof fn lemma_retain_release_balanced(h: Seq<CFObj>, id: int)
    requires
        0 <= id < h.len(),
    ensures
        h.update(
            id,
            CFObj { count: (h[id].count + 1) as nat, val: h[id].val },
        ).update(id, CFObj { count: h[id].count, val: h[id].val }) == h,
{
    assert(h.update(
        id,
        CFObj { count: (h[id].count + 1) as nat, val: h[id].val },
    ).update(id, CFObj { count: h[id].count, val: h[id].val }) =~= h);
}

/// Like [`StrongCell`], but for an object the caller asserted exclusive,
/// mutable access to.  See [`StrongCell::assuming_mut`].
#[derive(Debug)]
pub struct StrongMutCell<T: CFType> {
    obj: T,
}

impl<T: CFType> StrongMutCell<T> {
    /// The slot index this handle owns a reference to.
    pub closed spec fn id(&self) -> usize {
        self.obj.spec_id()
    }

    /// Borrows the underlying reference for as long as the handle lives.
    pub fn deref(&self) -> (r: &T)
        ensures
            r.spec_id() == self.id(),
    {
        &self.obj
    }

    /// Pays the one release this handle owes, exactly as
    /// [`StrongCell::release`] does.
    pub fn release(self, heap: &mut CFHeap)
        requires
            old(heap).live(self.id() as int),
        ensures
            final(heap)@ == old(heap)@.update(
                self.id() as int,
                CFObj {
                    count: (old(heap).count_of(self.id() as int) - 1) as nat,
                    val: old(heap).val_of(self.id() as int),
                },
            ),
    {
        let id = self.obj.raw();
        heap.release_at(id);
    }
}

} // verus!
