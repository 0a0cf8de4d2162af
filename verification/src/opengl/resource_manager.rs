use vstd::prelude::*;

use crate::pending::PendingCount;
use crate::search::{first_index, last_index, lemma_first_index_at, lemma_last_index_at};

verus! {

/// What a resource of the OpenGL renderer holds: a font with its texture, a texture, a
/// model's location, or a shape's vertex array. `None` while it is being loaded.
#[derive(Clone)]
pub enum ObjectType<V, F> {
    Font(Option<(F, u32)>),
    Texture(Option<u32>),
    Model(String),
    Shape(Option<V>),
}

/// A resource known to the renderer, by the name (`reference`) it is asked for.
#[derive(Clone)]
pub struct LoadableObject<V, F> {
    pub loaded: bool,
    pub location: String,
    pub reference: String,
    pub object_type: ObjectType<V, F>,
}

/// Keeps the OpenGL renderer's shapes, textures and fonts by name, and counts the loads
/// started in the background.
pub struct ResourceManager<V, F> {
    objects: Vec<LoadableObject<V, F>>,
    num_recv_objects: PendingCount,
}

/// The resources a [`ResourceManager`] holds, in order, and the number of background
/// loads started.
pub struct ResourceState<V, F> {
    pub objects: Seq<LoadableObject<V, F>>,
    pub pending: int,
}

impl<V, F> View for ResourceManager<V, F> {
    type V = ResourceState<V, F>;

    closed spec fn view(&self) -> ResourceState<V, F> {
        ResourceState { objects: self.objects@, pending: self.num_recv_objects.value() }
    }
}

/// Whether some resource has the name `r`.
pub open spec fn has_name<V, F>(objects: Seq<LoadableObject<V, F>>, r: Seq<char>) -> bool {
    exists|i: int| 0 <= i < objects.len() && (#[trigger] objects[i]).reference@ == r
}

pub open spec fn is_shape_named<V, F>(r: Seq<char>) -> spec_fn(LoadableObject<V, F>) -> bool {
    |o: LoadableObject<V, F>| o.reference@ == r && o.object_type is Shape
}

pub open spec fn is_texture_named<V, F>(r: Seq<char>) -> spec_fn(LoadableObject<V, F>) -> bool {
    |o: LoadableObject<V, F>| o.reference@ == r && o.object_type is Texture
}

pub open spec fn is_font_named<V, F>(r: Seq<char>) -> spec_fn(LoadableObject<V, F>) -> bool {
    |o: LoadableObject<V, F>| o.reference@ == r && o.object_type is Font
}

/// A shape named `r` whose vertex array is there.
pub open spec fn is_ready_shape_named<V, F>(r: Seq<char>) -> spec_fn(LoadableObject<V, F>) -> bool {
    |o: LoadableObject<V, F>| o.reference@ == r && (o.object_type matches ObjectType::Shape(Some(_)))
}

/// `b` is a clone of `a`.
pub open spec fn option_cloned<T: Clone>(a: Option<T>, b: Option<T>) -> bool {
    match a {
        None => b is None,
        Some(x) => b matches Some(y) && cloned(x, y),
    }
}

/// The resource holds exactly these parts.
pub open spec fn object_is<V, F>(
    o: LoadableObject<V, F>,
    loaded: bool,
    location: Seq<char>,
    reference: Seq<char>,
    object_type: ObjectType<V, F>,
) -> bool {
    &&& o.loaded == loaded
    &&& o.location@ == location
    &&& o.reference@ == reference
    &&& o.object_type == object_type
}

/// No resource before the last one is named `r`.
pub open spec fn only_last_named<V, F>(objects: Seq<LoadableObject<V, F>>, r: Seq<char>) -> bool {
    forall|k: int| 0 <= k < objects.len() - 1 ==> (#[trigger] objects[k]).reference@ != r
}

impl<V, F> ResourceManager<V, F> {
    pub fn new() -> (r: Self)
        ensures
            r@.objects == Seq::<LoadableObject<V, F>>::empty(),
            r@.pending == 0,
    {
        ResourceManager { objects: Vec::new(), num_recv_objects: PendingCount::zero() }
    }

    /// The number of loads started in the background.
    pub fn pending_loads(&self) -> (r: i32)
        ensures
            r == self@.pending,
            r >= 0,
    {
        self.num_recv_objects.get()
    }

    /// Adds a resource that a background load has finished.
    pub fn receive_object(&mut self, object: LoadableObject<V, F>)
        ensures
            final(self)@.objects == old(self)@.objects.push(object),
            final(self)@.pending == old(self)@.pending,
    {
        self.objects.push(object);
    }

    /// Whether no resource has the name `reference` yet.
    pub fn check_object(&self, reference: String) -> (r: bool)
        ensures
            r == !has_name(self@.objects, reference@),
    {
        let mut i: usize = 0;
        while i < self.objects.len()
            invariant
                i <= self.objects@.len(),
                forall|k: int| 0 <= k < i ==> (#[trigger] self.objects@[k]).reference@ != reference@,
            decreases self.objects@.len() - i,
        {
            if self.objects[i].reference == reference {
                return false;
            }
            i = i + 1;
        }
        true
    }

    /// Removes the resource named `reference`. Only the last resource can carry that
    /// name: the renderer stops with an index error when an earlier one does.
    pub fn remove_object(&mut self, reference: String)
        requires
            only_last_named(old(self)@.objects, reference@),
        ensures
            old(self)@.objects.len() > 0 && old(self)@.objects.last().reference@ == reference@
                ==> final(self)@.objects == old(self)@.objects.drop_last(),
            !(old(self)@.objects.len() > 0 && old(self)@.objects.last().reference@ == reference@)
                ==> final(self)@.objects == old(self)@.objects,
            final(self)@.pending == old(self)@.pending,
    {
        let len = self.objects.len();
        if len > 0 && self.objects[len - 1].reference == reference {
            self.objects.remove(len - 1);
            assert(self.objects@ =~= old(self).objects@.drop_last());
        }
    }

    /// The vertex array of the last shape named `reference`; `None` when there is no
    /// such shape or it is still being loaded.
    pub fn get_shape(&mut self, reference: String) -> (r: Option<V>) where V: Clone
        ensures
            final(self)@ == old(self)@,
            ({
                let j = last_index(old(self)@.objects, is_shape_named(reference@));
                if j >= 0 {
                    match old(self)@.objects[j].object_type {
                        ObjectType::Shape(vao) => option_cloned(vao, r),
                        _ => false,
                    }
                } else {
                    r is None
                }
            }),
    {
        let ghost p = is_shape_named::<V, F>(reference@);
        let mut i: usize = self.objects.len();
        while i > 0
            invariant
                i <= self.objects@.len(),
                p == is_shape_named::<V, F>(reference@),
                forall|k: int| i <= k < self.objects@.len() ==> !p(#[trigger] self.objects@[k]),
            decreases i,
        {
            i = i - 1;
            if self.objects[i].reference == reference {
                match &self.objects[i].object_type {
                    ObjectType::Shape(vao) => {
                        proof {
                            lemma_last_index_at(self.objects@, p, i as int);
                        }
                        return vao.clone();
                    },
                    _ => {},
                }
            }
        }
        proof {
            lemma_last_index_at(self.objects@, p, -1);
        }
        None
    }

    /// Adds a shape made elsewhere under a new name.
    pub fn insert_shape(&mut self, reference: String, vao: V)
        requires
            !has_name(old(self)@.objects, reference@),
        ensures
            final(self)@.pending == old(self)@.pending,
            final(self)@.objects.len() == old(self)@.objects.len() + 1,
            final(self)@.objects.drop_last() == old(self)@.objects,
            object_is(
                final(self)@.objects.last(),
                true,
                seq![],
                reference@,
                ObjectType::Shape(Some(vao)),
            ),
    {
        let location = String::new();
        self.objects.push(
            LoadableObject {
                loaded: true,
                location,
                reference,
                object_type: ObjectType::Shape(Some(vao)),
            },
        );
        assert(self.objects@.drop_last() =~= old(self).objects@);
    }

    /// Adds a shape, made at once, under a new name; the shape keeps no location.
    pub fn sync_load_shape(&mut self, reference: String, location: String, vao: V)
        requires
            !has_name(old(self)@.objects, reference@),
        ensures
            final(self)@.pending == old(self)@.pending,
            final(self)@.objects.len() == old(self)@.objects.len() + 1,
            final(self)@.objects.drop_last() == old(self)@.objects,
            object_is(
                final(self)@.objects.last(),
                true,
                seq![],
                reference@,
                ObjectType::Shape(Some(vao)),
            ),
    {
        self.insert_shape(reference, vao);
    }

    /// Notes a shape to be made in the background under a new name: the result arrives
    /// later through [`ResourceManager::receive_object`].
    pub fn load_shape(&mut self, reference: String)
        requires
            !has_name(old(self)@.objects, reference@),
            old(self)@.pending < i32::MAX,
        ensures
            final(self)@.objects == old(self)@.objects,
            final(self)@.pending == old(self)@.pending + 1,
    {
        self.num_recv_objects.increment();
    }

    /// The position of the first shape named `reference` whose vertex array is there:
    /// the one whose buffers a new set of vertices replaces. `None`: the shape is to be
    /// added instead.
    pub fn shape_to_update(&self, reference: &String) -> (r: Option<usize>)
        ensures
            ({
                let j = first_index(self@.objects, is_ready_shape_named(reference@));
                if j < self@.objects.len() {
                    r == Some(j as usize)
                } else {
                    r is None
                }
            }),
    {
        let ghost p = is_ready_shape_named::<V, F>(reference@);
        let mut i: usize = 0;
        while i < self.objects.len()
            invariant
                i <= self.objects@.len(),
                p == is_ready_shape_named::<V, F>(reference@),
                forall|k: int| 0 <= k < i ==> !p(#[trigger] self.objects@[k]),
            decreases self.objects@.len() - i,
        {
            if self.objects[i].reference == *reference {
                match &self.objects[i].object_type {
                    ObjectType::Shape(Some(_)) => {
                        proof {
                            lemma_first_index_at(self.objects@, p, i as int);
                        }
                        return Some(i);
                    },
                    _ => {},
                }
            }
            i = i + 1;
        }
        proof {
            lemma_first_index_at(self.objects@, p, i as int);
        }
        None
    }

    /// Takes the vertex array out of shape `i` to update its buffers; the shape is left
    /// without one until [`ResourceManager::put_shape`] gives it back.
    pub fn take_shape(&mut self, i: usize) -> (r: V)
        requires
            i < old(self)@.objects.len(),
            old(self)@.objects[i as int].object_type matches ObjectType::Shape(Some(_)),
        ensures
            old(self)@.objects[i as int].object_type == ObjectType::<V, F>::Shape(Some(r)),
            final(self)@.pending == old(self)@.pending,
            final(self)@.objects.len() == old(self)@.objects.len(),
            forall|k: int| 0 <= k < old(self)@.objects.len() && k != i ==> #[trigger] final(self)@.objects[k] == old(self)@.objects[k],
            object_is(
                final(self)@.objects[i as int],
                old(self)@.objects[i as int].loaded,
                old(self)@.objects[i as int].location@,
                old(self)@.objects[i as int].reference@,
                ObjectType::Shape(None),
            ),
    {
        let mut o = self.objects.remove(i);
        let mut old_type = ObjectType::Shape(None);
        std::mem::swap(&mut o.object_type, &mut old_type);
        self.objects.insert(i, o);
        match old_type {
            ObjectType::Shape(Some(v)) => v,
            _ => vstd::pervasive::unreached(),
        }
    }

    /// Gives shape `i` its vertex array back.
    pub fn put_shape(&mut self, i: usize, vao: V)
        requires
            i < old(self)@.objects.len(),
            old(self)@.objects[i as int].object_type is Shape,
        ensures
            final(self)@.pending == old(self)@.pending,
            final(self)@.objects.len() == old(self)@.objects.len(),
            forall|k: int| 0 <= k < old(self)@.objects.len() && k != i ==> #[trigger] final(self)@.objects[k] == old(self)@.objects[k],
            object_is(
                final(self)@.objects[i as int],
                old(self)@.objects[i as int].loaded,
                old(self)@.objects[i as int].location@,
                old(self)@.objects[i as int].reference@,
                ObjectType::Shape(Some(vao)),
            ),
    {
        let mut o = self.objects.remove(i);
        o.object_type = ObjectType::Shape(Some(vao));
        self.objects.insert(i, o);
    }

    /// The texture of the last texture resource named `reference`; `None` when there is
    /// no such resource or it is still being loaded.
    pub fn get_texture(&mut self, reference: String) -> (r: Option<u32>)
        ensures
            final(self)@ == old(self)@,
            ({
                let j = last_index(old(self)@.objects, is_texture_named(reference@));
                if j >= 0 {
                    match old(self)@.objects[j].object_type {
                        ObjectType::Texture(t) => r == t,
                        _ => false,
                    }
                } else {
                    r is None
                }
            }),
    {
        let ghost p = is_texture_named::<V, F>(reference@);
        let mut i: usize = self.objects.len();
        while i > 0
            invariant
                i <= self.objects@.len(),
                p == is_texture_named::<V, F>(reference@),
                forall|k: int| i <= k < self.objects@.len() ==> !p(#[trigger] self.objects@[k]),
            decreases i,
        {
            i = i - 1;
            if self.objects[i].reference == reference {
                match &self.objects[i].object_type {
                    ObjectType::Texture(t) => {
                        proof {
                            lemma_last_index_at(self.objects@, p, i as int);
                        }
                        return *t;
                    },
                    _ => {},
                }
            }
        }
        proof {
            lemma_last_index_at(self.objects@, p, -1);
        }
        None
    }

    /// Adds a texture made elsewhere; it keeps no location.
    pub fn insert_texture(&mut self, reference: String, new_image: u32)
        ensures
            final(self)@.pending == old(self)@.pending,
            final(self)@.objects.len() == old(self)@.objects.len() + 1,
            final(self)@.objects.drop_last() == old(self)@.objects,
            object_is(
                final(self)@.objects.last(),
                true,
                seq![],
                reference@,
                ObjectType::Texture(Some(new_image)),
            ),
    {
        let location = String::new();
        self.objects.push(
            LoadableObject {
                loaded: true,
                location,
                reference,
                object_type: ObjectType::Texture(Some(new_image)),
            },
        );
        assert(self.objects@.drop_last() =~= old(self).objects@);
    }

    /// Adds a texture, loaded at once from `location`.
    pub fn sync_load_texture(&mut self, reference: String, location: String, texture: u32)
        ensures
            final(self)@.pending == old(self)@.pending,
            final(self)@.objects.len() == old(self)@.objects.len() + 1,
            final(self)@.objects.drop_last() == old(self)@.objects,
            object_is(
                final(self)@.objects.last(),
                true,
                location@,
                reference@,
                ObjectType::Texture(Some(texture)),
            ),
    {
        self.objects.push(
            LoadableObject {
                loaded: true,
                location,
                reference,
                object_type: ObjectType::Texture(Some(texture)),
            },
        );
        assert(self.objects@.drop_last() =~= old(self).objects@);
    }

    /// Notes a texture to be loaded in the background: the result arrives later through
    /// [`ResourceManager::receive_object`].
    pub fn load_texture(&mut self)
        requires
            old(self)@.pending < i32::MAX,
        ensures
            final(self)@.objects == old(self)@.objects,
            final(self)@.pending == old(self)@.pending + 1,
    {
        self.num_recv_objects.increment();
    }

    /// The font and font texture of the last font resource named `reference`; `None` when
    /// there is no such resource or it is still being loaded.
    pub fn get_font(&mut self, reference: String) -> (r: Option<(F, u32)>) where F: Clone
        ensures
            final(self)@ == old(self)@,
            ({
                let j = last_index(old(self)@.objects, is_font_named(reference@));
                if j >= 0 {
                    match old(self)@.objects[j].object_type {
                        ObjectType::Font(None) => r is None,
                        ObjectType::Font(Some((font, texture))) => r matches Some((f, t)) && cloned(
                            font,
                            f,
                        ) && t == texture,
                        _ => false,
                    }
                } else {
                    r is None
                }
            }),
    {
        let ghost p = is_font_named::<V, F>(reference@);
        let mut i: usize = self.objects.len();
        while i > 0
            invariant
                i <= self.objects@.len(),
                p == is_font_named::<V, F>(reference@),
                forall|k: int| i <= k < self.objects@.len() ==> !p(#[trigger] self.objects@[k]),
            decreases i,
        {
            i = i - 1;
            if self.objects[i].reference == reference {
                match &self.objects[i].object_type {
                    ObjectType::Font(font) => {
                        proof {
                            lemma_last_index_at(self.objects@, p, i as int);
                        }
                        return match font {
                            Some((f, t)) => Some((f.clone(), *t)),
                            None => None,
                        };
                    },
                    _ => {},
                }
            }
        }
        proof {
            lemma_last_index_at(self.objects@, p, -1);
        }
        None
    }

    /// Adds a font made elsewhere, with its texture, under a new name.
    pub fn insert_font(&mut self, reference: String, font_info: (F, u32))
        requires
            !has_name(old(self)@.objects, reference@),
        ensures
            final(self)@.pending == old(self)@.pending,
            final(self)@.objects.len() == old(self)@.objects.len() + 1,
            final(self)@.objects.drop_last() == old(self)@.objects,
            object_is(
                final(self)@.objects.last(),
                true,
                seq![],
                reference@,
                ObjectType::Font(Some(font_info)),
            ),
    {
        let location = String::new();
        self.objects.push(
            LoadableObject {
                loaded: true,
                location,
                reference,
                object_type: ObjectType::Font(Some(font_info)),
            },
        );
        assert(self.objects@.drop_last() =~= old(self).objects@);
    }

    /// Adds a font, loaded at once with its texture from `location`, under a new name.
    pub fn sync_load_font(&mut self, reference: String, location: String, font: F, texture: u32)
        requires
            !has_name(old(self)@.objects, reference@),
        ensures
            final(self)@.pending == old(self)@.pending,
            final(self)@.objects.len() == old(self)@.objects.len() + 1,
            final(self)@.objects.drop_last() == old(self)@.objects,
            object_is(
                final(self)@.objects.last(),
                true,
                location@,
                reference@,
                ObjectType::Font(Some((font, texture))),
            ),
    {
        self.objects.push(
            LoadableObject {
                loaded: true,
                location,
                reference,
                object_type: ObjectType::Font(Some((font, texture))),
            },
        );
        assert(self.objects@.drop_last() =~= old(self).objects@);
    }
}

/// A shape just added under `r` is the one [`ResourceManager::get_shape`] finds under `r`.
pub proof fn lemma_inserted_shape_is_found<V, F>(
    before: Seq<LoadableObject<V, F>>,
    after: Seq<LoadableObject<V, F>>,
    r: Seq<char>,
    vao: V,
)
    requires
        after.len() == before.len() + 1,
        after.drop_last() == before,
        object_is(after.last(), true, seq![], r, ObjectType::Shape(Some(vao))),
    ensures
        last_index(after, is_shape_named(r)) == before.len(),
        after[before.len() as int].object_type == ObjectType::<V, F>::Shape(Some(vao)),
{
    lemma_last_index_at(after, is_shape_named(r), before.len() as int);
}

/// The texture added last under `r`, whatever was there before under that name, is the
/// one [`ResourceManager::get_texture`] finds under `r`.
pub proof fn lemma_latest_texture_is_found<V, F>(
    before: Seq<LoadableObject<V, F>>,
    after: Seq<LoadableObject<V, F>>,
    r: Seq<char>,
    location: Seq<char>,
    texture: u32,
)
    requires
        after.len() == before.len() + 1,
        after.drop_last() == before,
        object_is(after.last(), true, location, r, ObjectType::Texture(Some(texture))),
    ensures
        last_index(after, is_texture_named(r)) == before.len(),
        after[before.len() as int].object_type == ObjectType::<V, F>::Texture(Some(texture)),
{
    lemma_last_index_at(after, is_texture_named(r), before.len() as int);
}

} // verus!
