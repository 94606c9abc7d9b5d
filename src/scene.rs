use vstd::prelude::*;

verus! {

/// A handle to an object of a scene: where it is stored, and the id it was
/// given, so that a handle to a slot that now holds another object finds
/// nothing.
#[derive(Clone, Copy, PartialEq, Eq, Structural, Debug)]
pub struct ObjectId {
    index: usize,
    id: u32,
}

impl ObjectId {
    pub closed spec fn slot(self) -> usize {
        self.index
    }

    pub closed spec fn generation(self) -> u32 {
        self.id
    }
}

/// The objects of a scene, each under a stable id, with an optional camera
/// and a light direction.
pub struct Scene<O, C, L> {
    camera: Option<C>,
    light_direction: L,
    objects: Vec<(u32, O)>,
    next_id: u32,
}

impl<O, C, L> Scene<O, C, L> {
    /// The stored objects with their ids, in insertion order.
    pub closed spec fn entries(&self) -> Seq<(u32, O)> {
        self.objects@
    }

    pub closed spec fn camera_view(&self) -> Option<C> {
        self.camera
    }

    pub closed spec fn light(&self) -> L {
        self.light_direction
    }

    /// The id the next object will get.
    pub closed spec fn next(&self) -> u32 {
        self.next_id
    }

    /// Ids are handed out in order, one for each object.
    pub open spec fn wf(&self) -> bool {
        &&& self.next() == self.entries().len()
        &&& forall|i: int| 0 <= i < self.entries().len() ==> (#[trigger] self.entries()[i]).0 == i
    }

    /// The object that `id` designates, if its slot still holds it.
    pub open spec fn lookup(&self, id: ObjectId) -> Option<O> {
        if id.slot() < self.entries().len() && self.entries()[id.slot() as int].0 == id.generation() {
            Some(self.entries()[id.slot() as int].1)
        } else {
            None
        }
    }

    /// An empty scene without a camera.
    pub fn new(light_direction: L) -> (r: Self)
        ensures
            r.wf(),
            r.entries().len() == 0,
            r.camera_view().is_none(),
            r.light() == light_direction,
    {
        Scene { camera: None, light_direction, objects: Vec::new(), next_id: 0 }
    }

    pub fn light_direction(&self) -> (r: &L)
        ensures
            *r == self.light(),
    {
        &self.light_direction
    }

    pub fn set_light_direction(&mut self, light_direction: L)
        ensures
            final(self).light() == light_direction,
            final(self).entries() == old(self).entries(),
            final(self).next() == old(self).next(),
            final(self).camera_view() == old(self).camera_view(),
    {
        self.light_direction = light_direction;
    }

    pub fn object_count(&self) -> (r: usize)
        ensures
            r == self.entries().len(),
    {
        self.objects.len()
    }

    /// Stores `object` under a new id and returns its handle.
    pub fn add_object(&mut self, object: O) -> (r: ObjectId)
        requires
            old(self).wf(),
            old(self).entries().len() < u32::MAX,
        ensures
            final(self).wf(),
            final(self).entries() == old(self).entries().push((old(self).next(), object)),
            final(self).camera_view() == old(self).camera_view(),
            final(self).light() == old(self).light(),
            final(self).lookup(r) == Some(object),
            forall|id: ObjectId| #[trigger] old(self).lookup(id) is Some ==> final(self).lookup(id)
                == old(self).lookup(id),
    {
        let index = self.objects.len();
        let id = self.next_id;
        self.objects.push((id, object));
        self.next_id = id + 1;
        proof {
            assert forall|i: int| 0 <= i < self.entries().len() implies (
            #[trigger] self.entries()[i]).0 == i by {
                if i < index {
                    assert(self.entries()[i] == old(self).entries()[i]);
                }
            }
        }
        ObjectId { index, id }
    }

    /// The object that `id` designates, or `None` where its slot holds
    /// another object or does not exist.
    pub fn get_object(&self, id: ObjectId) -> (r: Option<&O>)
        ensures
            r.is_some() == self.lookup(id).is_some(),
            r matches Some(o) ==> *o == self.lookup(id).unwrap(),
    {
        if id.index >= self.objects.len() {
            return None;
        }
        let entry = &self.objects[id.index];
        if entry.0 != id.id {
            return None;
        }
        Some(&entry.1)
    }

    /// Puts `object` in the place of the one that `id` designates and returns
    /// that one; `None`, with nothing changed, where `id` designates nothing.
    pub fn replace_object(&mut self, id: ObjectId, object: O) -> (r: Option<O>)
        requires
            old(self).wf(),
        ensures
            final(self).wf(),
            r == old(self).lookup(id),
            r is Some ==> final(self).entries() == old(self).entries().update(id.slot() as int, (
                id.generation(), object)),
            r is None ==> final(self).entries() == old(self).entries(),
            r is Some ==> final(self).lookup(id) == Some(object),
            final(self).next() == old(self).next(),
            final(self).camera_view() == old(self).camera_view(),
            final(self).light() == old(self).light(),
    {
        if id.index >= self.objects.len() || self.objects[id.index].0 != id.id {
            return None;
        }
        let ghost before = self.objects@;
        let (_, previous) = self.objects.remove(id.index);
        self.objects.insert(id.index, (id.id, object));
        proof {
            assert(self.objects@ =~= before.update(id.index as int, (id.id, object)));
        }
        Some(previous)
    }

    pub fn add_camera(&mut self, camera: C)
        ensures
            final(self).camera_view() == Some(camera),
            final(self).entries() == old(self).entries(),
            final(self).next() == old(self).next(),
            final(self).light() == old(self).light(),
    {
        self.camera = Some(camera);
    }

    pub fn get_camera(&self) -> (r: Option<&C>)
        ensures
            r.is_some() == self.camera_view().is_some(),
            r matches Some(c) ==> *c == self.camera_view().unwrap(),
    {
        match &self.camera {
            Some(c) => Some(c),
            None => None,
        }
    }

    /// The handles of all objects, in insertion order.
    pub fn object_refs(&self) -> (r: Vec<ObjectId>)
        requires
            self.wf(),
        ensures
            r@.len() == self.entries().len(),
            forall|i: int| 0 <= i < r@.len() ==> (#[trigger] r@[i]).slot() == i
                && self.lookup(r@[i]) == Some(self.entries()[i].1),
    {
        let mut out: Vec<ObjectId> = Vec::new();
        let mut i: usize = 0;
        while i < self.objects.len()
            invariant
                i <= self.entries().len(),
                out@.len() == i,
                forall|j: int| 0 <= j < i ==> (#[trigger] out@[j]).slot() == j
                    && self.lookup(out@[j]) == Some(self.entries()[j].1),
            decreases self.entries().len() - i,
        {
            let id = ObjectId { index: i, id: self.objects[i].0 };
            out.push(id);
            i += 1;
        }
        out
    }
}

} // verus!
