use std::marker::PhantomData;
use vstd::prelude::*;

verus! {

/// The number that a heap gives each object it takes in, counting up.
pub type Generation = usize;

/// A reference to one object of a `Heap`: the generation in which the object
/// entered the heap and the slot that holds it.
#[derive(Debug)]
pub struct Handle<T> {
    gen: Generation,
    ptr: usize,
    marker: PhantomData<T>,
}

impl<T> Handle<T> {
    /// The generation of the object that this handle names.
    pub closed spec fn generation(&self) -> Generation {
        self.gen
    }

    /// The slot of the object that this handle names.
    pub closed spec fn slot(&self) -> usize {
        self.ptr
    }

    /// Whether two handles are equal: same generation, same slot.
    pub open spec fn same(&self, other: Handle<T>) -> bool {
        self.generation() == other.generation() && self.slot() == other.slot()
    }
}

impl<T> Clone for Handle<T> {
    fn clone(&self) -> (r: Self)
        ensures
            r == *self,
    {
        Handle { gen: self.gen, ptr: self.ptr, marker: self.marker }
    }
}

impl<T> Copy for Handle<T> {
}

impl<T> PartialEq for Handle<T> {
    fn eq(&self, other: &Self) -> (r: bool) {
        self.gen == other.gen && self.ptr == other.ptr
    }
}

impl<T> vstd::std_specs::cmp::PartialEqSpecImpl for Handle<T> {
    open spec fn obeys_eq_spec() -> bool {
        true
    }

    open spec fn eq_spec(&self, other: &Self) -> bool {
        self.same(*other)
    }
}

impl<T> Eq for Handle<T> {
}

impl<T> core::hash::Hash for Handle<T> {
    /// Feeds the generation and the slot of the handle to `state`, by
    /// `Hash` for `(usize, usize)`; nothing is claimed of what `state` takes in.
    #[verifier::external_body]
    fn hash<H: core::hash::Hasher>(&self, state: &mut H) {
        (self.gen, self.ptr).hash(state)
    }
}

/// Equality of handles is an equivalence.
pub proof fn law_handle_eq_equivalence<T>(a: Handle<T>, b: Handle<T>, c: Handle<T>)
    ensures
        a.same(a),
        a.same(b) == b.same(a),
        a.same(b) && b.same(c) ==> a.same(c),
{
}

impl<T> AsRef<Handle<T>> for Handle<T> {
    fn as_ref(&self) -> (r: &Handle<T>)
        ensures
            *r == *self,
    {
        self
    }
}

/// Whether no two handles of `hs` are equal.
pub open spec fn distinct_handles<T>(hs: Seq<Handle<T>>) -> bool {
    forall|i: int, j: int| 0 <= i < j < hs.len() ==> !(#[trigger] hs[i]).same(#[trigger] hs[j])
}

/// The objects of a garbage-collected heap.
///
/// Each object sits in a slot together with the generation in which it came
/// in; a handle reaches the object while the slot still holds that
/// generation. The heap also keeps, per handle, the sweep that last saw the
/// object and the number of roots that hold it alive.
#[derive(Clone)]
pub struct Heap<T> {
    last_sweep: usize,
    object_sweeps: Vec<(Handle<T>, usize)>,
    object_counter: Generation,
    objects: Vec<(Generation, T)>,
    rooted: Vec<(Handle<T>, usize)>,
}

impl<T> Heap<T> {
    /// The number of the last sweep that ran.
    pub closed spec fn last_sweep(&self) -> nat {
        self.last_sweep as nat
    }

    /// The generation that the next object will get.
    pub closed spec fn object_counter(&self) -> nat {
        self.object_counter as nat
    }

    /// The number of slots of the heap.
    pub closed spec fn slot_count(&self) -> nat {
        self.objects@.len()
    }

    /// The handles for which the heap records the sweep that last saw them.
    pub closed spec fn swept(&self) -> Seq<Handle<T>> {
        self.object_sweeps@.map_values(|e: (Handle<T>, usize)| e.0)
    }

    /// The handles that roots keep alive.
    pub closed spec fn roots(&self) -> Seq<Handle<T>> {
        self.rooted@.map_values(|e: (Handle<T>, usize)| e.0)
    }

    /// The invariant of a heap: no handle occurs twice among the sweep
    /// records, nor among the roots, as in a map keyed by handle.
    pub open spec fn wf(&self) -> bool {
        distinct_handles(self.swept()) && distinct_handles(self.roots())
    }

    /// Whether `h` names an object that the heap holds.
    pub closed spec fn contains(&self, h: Handle<T>) -> bool {
        &&& h.slot() < self.objects@.len()
        &&& self.objects@[h.slot() as int].0 == h.generation()
    }

    /// The object that `h` names, where the heap holds it.
    pub closed spec fn object(&self, h: Handle<T>) -> T {
        self.objects@[h.slot() as int].1
    }

    /// Whether the heap holds nothing: no object, no root, no sweep.
    pub open spec fn is_empty(&self) -> bool {
        &&& self.slot_count() == 0
        &&& self.swept().len() == 0
        &&& self.roots().len() == 0
        &&& self.last_sweep() == 0
        &&& self.object_counter() == 0
    }
}

/// Equal handles name the same object of a heap.
pub proof fn law_equal_handles_same_object<T>(heap: Heap<T>, a: Handle<T>, b: Handle<T>)
    requires
        a.same(b),
    ensures
        heap.contains(a) == heap.contains(b),
        heap.object(a) == heap.object(b),
{
}

impl<T> Default for Heap<T> {
    fn default() -> (heap: Self)
        ensures
            heap.wf(),
            heap.is_empty(),
            forall|h: Handle<T>| !heap.contains(h),
    {
        Heap {
            last_sweep: 0,
            object_sweeps: Vec::new(),
            object_counter: 0,
            objects: Vec::new(),
            rooted: Vec::new(),
        }
    }
}

impl<T> Handle<T> {
    /// The object that this handle names in `heap`.
    pub fn get_unchecked<'h>(&self, heap: &'h Heap<T>) -> (r: &'h T)
        requires
            heap.contains(*self),
        ensures
            *r == heap.object(*self),
    {
        &heap.objects[self.ptr].1
    }

    /// The object that this handle names in `heap`, to change in place.
    pub fn get_mut_unchecked<'h>(&self, heap: &'h mut Heap<T>) -> (r: &'h mut T)
        requires
            old(heap).contains(*self),
        ensures
            *r == old(heap).object(*self),
            final(heap).slot_count() == old(heap).slot_count(),
            final(heap).object(*self) == *final(r),
            forall|h: Handle<T>| #[trigger] final(heap).contains(h) == old(heap).contains(h),
            forall|h: Handle<T>|
                old(heap).contains(h) && h.slot() != self.slot() ==> #[trigger] final(heap).object(h)
                    == old(heap).object(h),
            final(heap).wf() == old(heap).wf(),
            final(heap).swept() == old(heap).swept(),
            final(heap).roots() == old(heap).roots(),
            final(heap).last_sweep() == old(heap).last_sweep(),
            final(heap).object_counter() == old(heap).object_counter(),
    {
        &mut heap.objects[self.ptr].1
    }
}

} // verus!
