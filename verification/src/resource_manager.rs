use vstd::prelude::*;

use crate::pending::PendingCount;
use crate::search::{
    first_index, last_index, lemma_first_index, lemma_first_index_at, lemma_last_index_at,
};

verus! {

/// What a resource holds: a font, a texture (its decoded pixels before upload, and the
/// uploaded image), or a model with the images of its textures.
#[derive(Clone)]
pub enum ObjectType<D, T, M, F> {
    Font(Option<F>),
    Texture(Option<D>, Option<T>),
    Model(Option<M>, Vec<Option<T>>),
}

/// A resource known to the manager, by the name (`reference`) it is asked for.
#[derive(Clone)]
pub struct LoadableObject<D, T, M, F> {
    pub loaded: bool,
    pub location: String,
    pub reference: String,
    pub object_type: ObjectType<D, T, M, F>,
}

/// Keeps the engine's textures, fonts and models by name, and counts the resources that
/// are being loaded in the background.
pub struct ResourceManager<D, T, M, F> {
    objects: Vec<LoadableObject<D, T, M, F>>,
    num_recv_objects: PendingCount,
}

/// The resources a [`ResourceManager`] holds, in insertion order, and the number of
/// background loads it still waits for.
pub struct ResourceState<D, T, M, F> {
    pub objects: Seq<LoadableObject<D, T, M, F>>,
    pub pending: int,
}

impl<D, T, M, F> View for ResourceManager<D, T, M, F> {
    type V = ResourceState<D, T, M, F>;

    closed spec fn view(&self) -> ResourceState<D, T, M, F> {
        ResourceState { objects: self.objects@, pending: self.num_recv_objects.value() }
    }
}

pub open spec fn named<D, T, M, F>(o: LoadableObject<D, T, M, F>, r: Seq<char>) -> bool {
    o.reference@ == r
}

/// Whether some resource has the name `r`.
pub open spec fn has_name<D, T, M, F>(objects: Seq<LoadableObject<D, T, M, F>>, r: Seq<char>) -> bool {
    exists|i: int| 0 <= i < objects.len() && named(#[trigger] objects[i], r)
}

pub open spec fn is_texture_named<D, T, M, F>(r: Seq<char>) -> spec_fn(
    LoadableObject<D, T, M, F>,
) -> bool {
    |o: LoadableObject<D, T, M, F>| o.reference@ == r && o.object_type is Texture
}

pub open spec fn is_model_named<D, T, M, F>(r: Seq<char>) -> spec_fn(
    LoadableObject<D, T, M, F>,
) -> bool {
    |o: LoadableObject<D, T, M, F>| o.reference@ == r && o.object_type is Model
}

pub open spec fn is_loaded_font_named<D, T, M, F>(r: Seq<char>) -> spec_fn(
    LoadableObject<D, T, M, F>,
) -> bool {
    |o: LoadableObject<D, T, M, F>|
        o.reference@ == r && (o.object_type matches ObjectType::Font(Some(_)))
}

pub open spec fn is_unloaded_named<D, T, M, F>(r: Seq<char>) -> spec_fn(
    LoadableObject<D, T, M, F>,
) -> bool {
    |o: LoadableObject<D, T, M, F>| o.reference@ == r && !o.loaded
}

/// The uploaded image of a texture resource.
pub open spec fn texture_image<D, T, M, F>(o: LoadableObject<D, T, M, F>) -> Option<T> {
    match o.object_type {
        ObjectType::Texture(_, image) => image,
        _ => None,
    }
}

/// `b` is a clone of `a`.
pub open spec fn option_cloned<T: Clone>(a: Option<T>, b: Option<T>) -> bool {
    match a {
        None => b is None,
        Some(x) => b matches Some(y) && cloned(x, y),
    }
}

/// A resource made from its parts.
pub open spec fn object<D, T, M, F>(
    loaded: bool,
    location: Seq<char>,
    reference: Seq<char>,
    object_type: ObjectType<D, T, M, F>,
    o: LoadableObject<D, T, M, F>,
) -> bool {
    &&& o.loaded == loaded
    &&& o.location@ == location
    &&& o.reference@ == reference
    &&& o.object_type == object_type
}

/// The names and images of the loaded textures that have an uploaded image, in order.
pub open spec fn loaded_textures<D, T, M, F>(objects: Seq<LoadableObject<D, T, M, F>>) -> Seq<
    (Seq<char>, T),
>
    decreases objects.len(),
{
    if objects.len() == 0 {
        seq![]
    } else {
        let rest = loaded_textures(objects.drop_last());
        let o = objects.last();
        if o.loaded && texture_image(o) is Some {
            rest.push((o.reference@, texture_image(o).unwrap()))
        } else {
            rest
        }
    }
}

/// The resources after marking every model named `r` as not loaded.
pub open spec fn unload_models<D, T, M, F>(
    objects: Seq<LoadableObject<D, T, M, F>>,
    r: Seq<char>,
) -> Seq<LoadableObject<D, T, M, F>> {
    objects.map_values(
        |o: LoadableObject<D, T, M, F>|
            if is_model_named(r)(o) {
                LoadableObject { loaded: false, ..o }
            } else {
                o
            },
    )
}

/// The positions, below `n` and in order, of the models named `r`.
pub open spec fn model_positions<D, T, M, F>(
    objects: Seq<LoadableObject<D, T, M, F>>,
    r: Seq<char>,
    n: int,
) -> Seq<usize>
    decreases n,
{
    if n <= 0 {
        seq![]
    } else {
        let prev = model_positions(objects, r, n - 1);
        if is_model_named(r)(objects[n - 1]) {
            prev.push((n - 1) as usize)
        } else {
            prev
        }
    }
}

/// Loading by the name `r` may start: another background load can be counted, and once
/// the first unloaded resource of that name is taken out, no resource keeps the name.
pub open spec fn take_allowed<D, T, M, F>(state: ResourceState<D, T, M, F>, r: Seq<char>) -> bool {
    &&& state.pending < i32::MAX
    &&& ({
        let j = first_index(state.objects, is_unloaded_named(r));
        j < state.objects.len() ==> !has_name(state.objects.remove(j), r)
    })
}

impl<D, T, M, F> ResourceManager<D, T, M, F> {
    pub fn new() -> (r: Self)
        ensures
            r@.objects == Seq::<LoadableObject<D, T, M, F>>::empty(),
            r@.pending == 0,
    {
        ResourceManager { objects: Vec::new(), num_recv_objects: PendingCount::zero() }
    }

    /// The number of background loads that were started and not yet received.
    pub fn pending_loads(&self) -> (r: i32)
        ensures
            r == self@.pending,
            r >= 0,
    {
        self.num_recv_objects.get()
    }

    /// The resources, in insertion order.
    pub fn objects(&self) -> (r: &Vec<LoadableObject<D, T, M, F>>)
        ensures
            r@ == self@.objects,
    {
        &self.objects
    }

    /// Whether no resource has the name `reference` yet.
    pub fn check_object(&self, reference: String) -> (r: bool)
        ensures
            r == !has_name(self@.objects, reference@),
    {
        let mut i: usize = 0;
        while i < self.objects.len()
            invariant
                i <= self.objects@.len(),
                forall|k: int| 0 <= k < i ==> !named(#[trigger] self.objects@[k], reference@),
            decreases self.objects@.len() - i,
        {
            if self.objects[i].reference == reference {
                assert(named(self.objects@[i as int], reference@));
                return false;
            }
            i = i + 1;
        }
        true
    }

    /// Whether loading by the name `reference` may start, as
    /// [`Self::load_texture_from_reference`] and [`Self::load_model_from_reference`] need.
    pub fn can_take_unloaded(&self, reference: &String) -> (r: bool)
        ensures
            r == take_allowed(self@, reference@),
    {
        if self.num_recv_objects.get() == i32::MAX {
            return false;
        }
        let ghost p = is_unloaded_named::<D, T, M, F>(reference@);
        let mut j: usize = 0;
        while j < self.objects.len()
            invariant
                j <= self.objects@.len(),
                p == is_unloaded_named::<D, T, M, F>(reference@),
                forall|k: int| 0 <= k < j ==> !p(#[trigger] self.objects@[k]),
            ensures
                j <= self.objects@.len(),
                forall|k: int| 0 <= k < j ==> !p(#[trigger] self.objects@[k]),
                j < self.objects@.len() ==> p(self.objects@[j as int]),
            decreases self.objects@.len() - j,
        {
            if self.objects[j].reference == *reference && !self.objects[j].loaded {
                break;
            }
            j = j + 1;
        }
        proof {
            lemma_first_index_at(self.objects@, p, j as int);
        }
        if j == self.objects.len() {
            return true;
        }
        let ghost rest = self.objects@.remove(j as int);
        let mut k: usize = 0;
        while k < self.objects.len()
            invariant
                j < self.objects@.len(),
                j == first_index(self.objects@, is_unloaded_named(reference@)),
                self@.pending < i32::MAX,
                k <= self.objects@.len(),
                rest == self.objects@.remove(j as int),
                forall|i: int| 0 <= i < k && i != j ==> !named(#[trigger] self.objects@[i], reference@),
            decreases self.objects@.len() - k,
        {
            if k != j && self.objects[k].reference == *reference {
                proof {
                    let i = if k < j { k as int } else { k - 1 };
                    assert(rest[i] == self.objects@[k as int]);
                    assert(named(rest[i], reference@));
                }
                return false;
            }
            k = k + 1;
        }
        proof {
            if has_name(rest, reference@) {
                let i = choose|i: int| 0 <= i < rest.len() && named(#[trigger] rest[i], reference@);
                if i < j {
                    assert(rest[i] == self.objects@[i]);
                } else {
                    assert(rest[i] == self.objects@[i + 1]);
                }
            }
        }
        true
    }

    /// Takes out the first resource named `reference` that is not loaded, if any.
    fn get_unloaded_object(&mut self, reference: &String) -> (r: Option<
        LoadableObject<D, T, M, F>,
    >)
        ensures
            ({
                let j = first_index(old(self)@.objects, is_unloaded_named(reference@));
                if j < old(self)@.objects.len() {
                    &&& r == Some(old(self)@.objects[j])
                    &&& final(self)@.objects == old(self)@.objects.remove(j)
                } else {
                    &&& r is None
                    &&& final(self)@.objects == old(self)@.objects
                }
            }),
            final(self)@.pending == old(self)@.pending,
    {
        let ghost p = is_unloaded_named::<D, T, M, F>(reference@);
        let mut i: usize = 0;
        while i < self.objects.len()
            invariant
                i <= self.objects@.len(),
                self.objects@ == old(self).objects@,
                self.num_recv_objects == old(self).num_recv_objects,
                p == is_unloaded_named::<D, T, M, F>(reference@),
                forall|k: int| 0 <= k < i ==> !p(#[trigger] self.objects@[k]),
            decreases self.objects@.len() - i,
        {
            if self.objects[i].reference == *reference && !self.objects[i].loaded {
                proof {
                    lemma_first_index_at(self.objects@, p, i as int);
                }
                return Some(self.objects.remove(i));
            }
            i = i + 1;
        }
        proof {
            lemma_first_index_at(self.objects@, p, i as int);
        }
        None
    }

    /// Removes the resource named `reference`. Only the last resource can carry that
    /// name: the engine stops with an index error when an earlier one does.
    pub fn _remove_object(&mut self, reference: String)
        requires
            forall|k: int|
                0 <= k < old(self)@.objects.len() - 1 ==> !named(
                    #[trigger] old(self)@.objects[k],
                    reference@,
                ),
        ensures
            old(self)@.objects.len() > 0 && named(old(self)@.objects.last(), reference@)
                ==> final(self)@.objects == old(self)@.objects.drop_last(),
            !(old(self)@.objects.len() > 0 && named(old(self)@.objects.last(), reference@))
                ==> final(self)@.objects == old(self)@.objects,
            final(self)@.pending == old(self)@.pending,
    {
        let len = self.objects.len();
        if len > 0 && self.objects[len - 1].reference == reference {
            self.objects.remove(len - 1);
            assert(self.objects@ =~= old(self).objects@.drop_last());
        }
    }

    /// The uploaded image of the first texture named `reference`; `None` when there is
    /// no such texture or it has not been uploaded yet.
    pub fn get_texture(&mut self, reference: String) -> (r: Option<T>) where T: Clone
        ensures
            final(self)@ == old(self)@,
            ({
                let j = first_index(old(self)@.objects, is_texture_named(reference@));
                if j < old(self)@.objects.len() {
                    option_cloned(texture_image(old(self)@.objects[j]), r)
                } else {
                    r is None
                }
            }),
    {
        let ghost p = is_texture_named::<D, T, M, F>(reference@);
        let mut i: usize = 0;
        while i < self.objects.len()
            invariant
                i <= self.objects@.len(),
                p == is_texture_named::<D, T, M, F>(reference@),
                forall|k: int| 0 <= k < i ==> !p(#[trigger] self.objects@[k]),
            decreases self.objects@.len() - i,
        {
            if self.objects[i].reference == reference {
                match &self.objects[i].object_type {
                    ObjectType::Texture(_data, image) => {
                        proof {
                            lemma_first_index_at(self.objects@, p, i as int);
                        }
                        return image.clone();
                    },
                    _ => {},
                }
            }
            i = i + 1;
        }
        proof {
            lemma_first_index_at(self.objects@, p, i as int);
        }
        None
    }

    /// The model and texture images of the last model named `reference`, or `None` while
    /// that model is not loaded yet.
    pub fn get_model(&mut self, reference: String) -> (r: Option<(Option<M>, Vec<Option<T>>)>) where
        T: Clone,
        M: Clone,
        ensures
            final(self)@ == old(self)@,
            ({
                let j = last_index(old(self)@.objects, is_model_named(reference@));
                if j >= 0 && old(self)@.objects[j].loaded {
                    match old(self)@.objects[j].object_type {
                        ObjectType::Model(Some(model), images) => r matches Some(
                            (Some(m), im),
                        ) && cloned(model, m) && im.len() == images.len() && forall|k: int|
                            0 <= k < images.len() ==> cloned(#[trigger] images[k], im[k]),
                        _ => r is None,
                    }
                } else {
                    r is None
                }
            }),
    {
        let ghost p = is_model_named::<D, T, M, F>(reference@);
        let mut i: usize = self.objects.len();
        while i > 0
            invariant
                i <= self.objects@.len(),
                p == is_model_named::<D, T, M, F>(reference@),
                forall|k: int| i <= k < self.objects@.len() ==> !p(#[trigger] self.objects@[k]),
            decreases i,
        {
            i = i - 1;
            if self.objects[i].reference == reference {
                let loaded = self.objects[i].loaded;
                match &self.objects[i].object_type {
                    ObjectType::Model(model, images) => {
                        proof {
                            lemma_last_index_at(self.objects@, p, i as int);
                        }
                        if !loaded {
                            return None;
                        }
                        return match model {
                            Some(m) => Some((Some(m.clone()), images.clone())),
                            None => None,
                        };
                    },
                    _ => {},
                }
            }
        }
        proof {
            lemma_last_index_at(self.objects@, p, -1);
        }
        None
    }

    /// The last loaded font named `reference`.
    pub fn get_font(&mut self, reference: String) -> (r: Option<F>) where F: Clone
        ensures
            final(self)@ == old(self)@,
            ({
                let j = last_index(old(self)@.objects, is_loaded_font_named(reference@));
                if j >= 0 {
                    match old(self)@.objects[j].object_type {
                        ObjectType::Font(Some(font)) => r matches Some(f) && cloned(font, f),
                        _ => false,
                    }
                } else {
                    r is None
                }
            }),
    {
        let ghost p = is_loaded_font_named::<D, T, M, F>(reference@);
        let mut i: usize = self.objects.len();
        while i > 0
            invariant
                i <= self.objects@.len(),
                p == is_loaded_font_named::<D, T, M, F>(reference@),
                forall|k: int| i <= k < self.objects@.len() ==> !p(#[trigger] self.objects@[k]),
            decreases i,
        {
            i = i - 1;
            if self.objects[i].reference == reference {
                match &self.objects[i].object_type {
                    ObjectType::Font(Some(font)) => {
                        proof {
                            lemma_last_index_at(self.objects@, p, i as int);
                        }
                        return Some(font.clone());
                    },
                    _ => {},
                }
            }
        }
        proof {
            lemma_last_index_at(self.objects@, p, -1);
        }
        None
    }

    /// The name and uploaded image of every loaded texture that has one, in order.
    pub fn get_all_textures(&self) -> (r: Vec<(String, T)>) where T: Clone
        ensures
            r@.len() == loaded_textures(self@.objects).len(),
            forall|k: int|
                0 <= k < r@.len() ==> (#[trigger] r@[k]).0@ == loaded_textures(self@.objects)[k].0
                    && cloned(loaded_textures(self@.objects)[k].1, r@[k].1),
    {
        let mut result: Vec<(String, T)> = Vec::new();
        let mut i: usize = 0;
        assert(self.objects@.take(0) =~= Seq::<LoadableObject<D, T, M, F>>::empty());
        while i < self.objects.len()
            invariant
                i <= self.objects@.len(),
                result@.len() == loaded_textures(self.objects@.take(i as int)).len(),
                forall|k: int|
                    0 <= k < result@.len() ==> (#[trigger] result@[k]).0@ == loaded_textures(
                        self.objects@.take(i as int),
                    )[k].0 && cloned(loaded_textures(self.objects@.take(i as int))[k].1, result@[k].1),
            decreases self.objects@.len() - i,
        {
            let ghost prev = loaded_textures(self.objects@.take(i as int));
            assert(self.objects@.take(i + 1).drop_last() =~= self.objects@.take(i as int));
            assert(self.objects@.take(i + 1).last() == self.objects@[i as int]);
            let object = &self.objects[i];
            if object.loaded {
                match &object.object_type {
                    ObjectType::Texture(_data, Some(image)) => {
                        let name = object.reference.clone();
                        let image = image.clone();
                        result.push((name, image));
                    },
                    _ => {},
                }
            }
            i = i + 1;
        }
        assert(self.objects@.take(self.objects@.len() as int) =~= self.objects@);
        result
    }

    /// Adds a texture to be loaded later from `location`; it is not loaded yet.
    pub fn insert_unloaded_texture(&mut self, reference: String, location: String)
        requires
            !has_name(old(self)@.objects, reference@),
        ensures
            final(self)@.objects.len() == old(self)@.objects.len() + 1,
            final(self)@.objects.drop_last() == old(self)@.objects,
            object(
                false,
                location@,
                reference@,
                ObjectType::Texture(None, None),
                final(self)@.objects.last(),
            ),
            final(self)@.pending == old(self)@.pending,
    {
        self.objects.push(
            LoadableObject {
                loaded: false,
                location: location,
                reference: reference.clone(),
                object_type: ObjectType::Texture(None, None),
            },
        );
        assert(self.objects@.drop_last() =~= old(self).objects@);
    }

    /// Adds a texture made elsewhere in the program; it has no file location.
    pub fn insert_texture(&mut self, reference: String, new_image: T)
        requires
            !has_name(old(self)@.objects, reference@),
        ensures
            final(self)@.objects.len() == old(self)@.objects.len() + 1,
            final(self)@.objects.drop_last() == old(self)@.objects,
            object(
                true,
                Seq::<char>::empty(),
                reference@,
                ObjectType::Texture(None, Some(new_image)),
                final(self)@.objects.last(),
            ),
            final(self)@.pending == old(self)@.pending,
    {
        self.objects.push(
            LoadableObject {
                loaded: true,
                location: String::new(),
                reference: reference.clone(),
                object_type: ObjectType::Texture(None, Some(new_image)),
            },
        );
        assert(self.objects@.drop_last() =~= old(self).objects@);
    }

    /// Adds a texture that has just been loaded from `location`.
    pub fn sync_load_texture(&mut self, reference: String, location: String, texture: T)
        requires
            !has_name(old(self)@.objects, reference@),
        ensures
            final(self)@.objects.len() == old(self)@.objects.len() + 1,
            final(self)@.objects.drop_last() == old(self)@.objects,
            object(
                true,
                location@,
                reference@,
                ObjectType::Texture(None, Some(texture)),
                final(self)@.objects.last(),
            ),
            final(self)@.pending == old(self)@.pending,
    {
        self.objects.push(
            LoadableObject {
                loaded: true,
                location: location.clone(),
                reference: reference.clone(),
                object_type: ObjectType::Texture(None, Some(texture)),
            },
        );
        assert(self.objects@.drop_last() =~= old(self).objects@);
    }

    /// Adds a font, with its texture, that has just been loaded from `location`.
    pub fn sync_load_font(&mut self, reference: String, location: String, font: F)
        requires
            !has_name(old(self)@.objects, reference@),
        ensures
            final(self)@.objects.len() == old(self)@.objects.len() + 1,
            final(self)@.objects.drop_last() == old(self)@.objects,
            object(
                true,
                location@,
                reference@,
                ObjectType::Font(Some(font)),
                final(self)@.objects.last(),
            ),
            final(self)@.pending == old(self)@.pending,
    {
        self.objects.push(
            LoadableObject {
                loaded: true,
                location: location.clone(),
                reference: reference.clone(),
                object_type: ObjectType::Font(Some(font)),
            },
        );
        assert(self.objects@.drop_last() =~= old(self).objects@);
    }

    /// Adds a model that has just been loaded from `location`; the images of its
    /// textures are made later.
    pub fn sync_load_model(&mut self, reference: String, location: String, model: M)
        requires
            !has_name(old(self)@.objects, reference@),
        ensures
            final(self)@.objects.len() == old(self)@.objects.len() + 1,
            final(self)@.objects.drop_last() == old(self)@.objects,
            final(self)@.objects.last().loaded,
            final(self)@.objects.last().location@ == location@,
            final(self)@.objects.last().reference@ == reference@,
            final(self)@.objects.last().object_type matches ObjectType::Model(Some(m), images) && m
                == model && images@.len() == 0,
            final(self)@.pending == old(self)@.pending,
    {
        self.objects.push(
            LoadableObject {
                loaded: true,
                location: location,
                reference: reference,
                object_type: ObjectType::Model(Some(model), Vec::new()),
            },
        );
        assert(self.objects@.drop_last() =~= old(self).objects@);
    }

    /// Adds a model to be loaded later from `location`, unless a resource of that name
    /// already exists.
    pub fn insert_unloaded_model(&mut self, reference: String, location: String)
        ensures
            has_name(old(self)@.objects, reference@) ==> final(self)@ == old(self)@,
            !has_name(old(self)@.objects, reference@) ==> {
                &&& final(self)@.objects.len() == old(self)@.objects.len() + 1
                &&& final(self)@.objects.drop_last() == old(self)@.objects
                &&& !final(self)@.objects.last().loaded
                &&& final(self)@.objects.last().location@ == location@
                &&& final(self)@.objects.last().reference@ == reference@
                &&& final(self)@.objects.last().object_type matches ObjectType::Model(
                    None,
                    images,
                ) && images@.len() == 0
                &&& final(self)@.pending == old(self)@.pending
            },
    {
        if !self.check_object(reference.clone()) {
            return;
        }
        self.objects.push(
            LoadableObject {
                loaded: false,
                location: location,
                reference: reference.clone(),
                object_type: ObjectType::Model(None, Vec::new()),
            },
        );
        assert(self.objects@.drop_last() =~= old(self).objects@);
    }

    /// Counts a texture whose loading has started in the background.
    pub fn load_texture(&mut self, reference: &String)
        requires
            !has_name(old(self)@.objects, reference@),
            old(self)@.pending < i32::MAX,
        ensures
            final(self)@.objects == old(self)@.objects,
            final(self)@.pending == old(self)@.pending + 1,
    {
        self.num_recv_objects.increment();
    }

    /// Counts a model whose loading has started in the background.
    pub fn load_model(&mut self, reference: &String)
        requires
            !has_name(old(self)@.objects, reference@),
            old(self)@.pending < i32::MAX,
        ensures
            final(self)@.objects == old(self)@.objects,
            final(self)@.pending == old(self)@.pending + 1,
    {
        self.num_recv_objects.increment();
    }

    /// Takes out the first unloaded texture named `reference` and counts it as being
    /// loaded; returns its name and location, for the loading to start, or `None` when
    /// there is no such resource.
    pub fn load_texture_from_reference(&mut self, reference: String) -> (r: Option<(String, String)>)
        requires
            old(self)@.pending < i32::MAX,
            ({
                let j = first_index(old(self)@.objects, is_unloaded_named(reference@));
                j < old(self)@.objects.len() ==> !has_name(
                    old(self)@.objects.remove(j),
                    reference@,
                )
            }),
        ensures
            ({
                let j = first_index(old(self)@.objects, is_unloaded_named(reference@));
                if j < old(self)@.objects.len() {
                    &&& r matches Some((name, location)) && name@ == reference@ && location@
                        == old(self)@.objects[j].location@
                    &&& final(self)@.objects == old(self)@.objects.remove(j)
                    &&& final(self)@.pending == old(self)@.pending + 1
                    &&& final(self)@.pending > 0
                } else {
                    &&& r is None
                    &&& final(self)@ == old(self)@
                }
            }),
    {
        proof {
            use_type_invariant(&self.num_recv_objects);
        }
        let ghost before = self@.objects;
        let unloaded_object = self.get_unloaded_object(&reference);
        match unloaded_object {
            Some(object) => {
                proof {
                    lemma_first_index(before, is_unloaded_named(reference@));
                }
                self.load_texture(&reference);
                Some((object.reference, object.location))
            },
            None => None,
        }
    }

    /// As [`Self::load_texture_from_reference`], for a model.
    pub fn load_model_from_reference(&mut self, reference: String) -> (r: Option<(String, String)>)
        requires
            old(self)@.pending < i32::MAX,
            ({
                let j = first_index(old(self)@.objects, is_unloaded_named(reference@));
                j < old(self)@.objects.len() ==> !has_name(
                    old(self)@.objects.remove(j),
                    reference@,
                )
            }),
        ensures
            ({
                let j = first_index(old(self)@.objects, is_unloaded_named(reference@));
                if j < old(self)@.objects.len() {
                    &&& r matches Some((name, location)) && name@ == reference@ && location@
                        == old(self)@.objects[j].location@
                    &&& final(self)@.objects == old(self)@.objects.remove(j)
                    &&& final(self)@.pending == old(self)@.pending + 1
                    &&& final(self)@.pending > 0
                } else {
                    &&& r is None
                    &&& final(self)@ == old(self)@
                }
            }),
    {
        proof {
            use_type_invariant(&self.num_recv_objects);
        }
        let ghost before = self@.objects;
        let unloaded_object = self.get_unloaded_object(&reference);
        match unloaded_object {
            Some(object) => {
                proof {
                    lemma_first_index(before, is_unloaded_named(reference@));
                }
                self.load_model(&reference);
                Some((object.reference, object.location))
            },
            None => None,
        }
    }

    /// Takes out the first texture named `reference`; its image is for the caller to
    /// destroy.
    pub fn _unload_texture_from_reference(&mut self, reference: String) -> (r: Option<
        LoadableObject<D, T, M, F>,
    >)
        ensures
            ({
                let j = first_index(old(self)@.objects, is_texture_named(reference@));
                if j < old(self)@.objects.len() {
                    &&& r == Some(old(self)@.objects[j])
                    &&& final(self)@.objects == old(self)@.objects.remove(j)
                } else {
                    &&& r is None
                    &&& final(self)@.objects == old(self)@.objects
                }
            }),
            final(self)@.pending == old(self)@.pending,
    {
        let ghost p = is_texture_named::<D, T, M, F>(reference@);
        let mut i: usize = 0;
        while i < self.objects.len()
            invariant
                i <= self.objects@.len(),
                self.objects@ == old(self).objects@,
                self.num_recv_objects == old(self).num_recv_objects,
                p == is_texture_named::<D, T, M, F>(reference@),
                forall|k: int| 0 <= k < i ==> !p(#[trigger] self.objects@[k]),
            decreases self.objects@.len() - i,
        {
            if self.objects[i].reference == reference {
                match &self.objects[i].object_type {
                    ObjectType::Texture(..) => {
                        proof {
                            lemma_first_index_at(self.objects@, p, i as int);
                        }
                        return Some(self.objects.remove(i));
                    },
                    _ => {},
                }
            }
            i = i + 1;
        }
        proof {
            lemma_first_index_at(self.objects@, p, i as int);
        }
        None
    }

    /// Marks every model named `reference` as not loaded; returns their positions, in
    /// order, whose images the caller destroys.
    pub fn unload_model_from_reference(&mut self, reference: String) -> (r: Vec<usize>)
        ensures
            final(self)@.objects == unload_models(old(self)@.objects, reference@),
            final(self)@.pending == old(self)@.pending,
            r@ == model_positions(old(self)@.objects, reference@, old(self)@.objects.len() as int),
    {
        let mut marked: Vec<usize> = Vec::new();
        let mut i: usize = 0;
        while i < self.objects.len()
            invariant
                i <= self.objects@.len(),
                self.objects@.len() == old(self).objects@.len(),
                self.num_recv_objects == old(self).num_recv_objects,
                forall|k: int|
                    0 <= k < i ==> #[trigger] self.objects@[k] == unload_models(
                        old(self).objects@,
                        reference@,
                    )[k],
                forall|k: int| i <= k < self.objects@.len() ==> #[trigger] self.objects@[k] == old(
                    self,
                ).objects@[k],
                marked@ == model_positions(old(self).objects@, reference@, i as int),
            decreases self.objects@.len() - i,
        {
            let is_model = match &self.objects[i].object_type {
                ObjectType::Model(..) => true,
                _ => false,
            };
            if self.objects[i].reference == reference && is_model {
                let mut object = self.objects.remove(i);
                object.loaded = false;
                self.objects.insert(i, object);
                marked.push(i);
            }
            i = i + 1;
        }
        assert(self.objects@ =~= unload_models(old(self).objects@, reference@));
        marked
    }

    /// Whether no background load is waited for, in which case the manager forgets
    /// its loading slots.
    pub fn should_clear_pending(&self) -> (r: bool)
        ensures
            r == (self@.pending <= 0),
    {
        self.num_recv_objects.get() <= 0
    }

    /// Adds a resource whose background load has finished, and counts it as arrived.
    pub fn receive_object(&mut self, object: LoadableObject<D, T, M, F>)
        requires
            old(self)@.pending > 0,
        ensures
            final(self)@.objects == old(self)@.objects.push(object),
            final(self)@.pending == old(self)@.pending - 1,
    {
        self.objects.push(object);
        self.num_recv_objects.decrement();
    }
}

/// A resource added under a new name is the first texture of that name: asking for the
/// texture gives the image that was added with it.
pub proof fn lemma_inserted_texture_is_found<D, T, M, F>(
    objects: Seq<LoadableObject<D, T, M, F>>,
    added: LoadableObject<D, T, M, F>,
    image: Option<T>,
)
    requires
        !has_name(objects, added.reference@),
        added.object_type matches ObjectType::Texture(_, i) && i == image,
    ensures
        first_index(objects.push(added), is_texture_named(added.reference@)) == objects.len(),
        texture_image(objects.push(added)[objects.len() as int]) == image,
        has_name(objects.push(added), added.reference@),
{
    let s = objects.push(added);
    let p = is_texture_named::<D, T, M, F>(added.reference@);
    assert forall|k: int| 0 <= k < objects.len() implies !p(#[trigger] s[k]) by {
        assert(s[k] == objects[k]);
        assert(!named(objects[k], added.reference@));
    }
    lemma_first_index_at(s, p, objects.len() as int);
    assert(named(s[objects.len() as int], added.reference@));
}

/// A model added to be loaded later is the last model of its name, and it is not loaded:
/// until its loading is received, asking for the model by that name gives nothing.
pub proof fn lemma_unloaded_model_is_not_given<D, T, M, F>(
    objects: Seq<LoadableObject<D, T, M, F>>,
    added: LoadableObject<D, T, M, F>,
)
    requires
        added.object_type is Model,
        !added.loaded,
    ensures
        last_index(objects.push(added), is_model_named(added.reference@)) == objects.len(),
        !objects.push(added)[objects.len() as int].loaded,
{
    let s = objects.push(added);
    lemma_last_index_at(s, is_model_named::<D, T, M, F>(added.reference@), objects.len() as int);
}

/// A texture added to be loaded later under a new name is the one that loading by that
/// name takes out, leaving the other resources as they were.
pub proof fn lemma_unloaded_texture_is_taken<D, T, M, F>(
    objects: Seq<LoadableObject<D, T, M, F>>,
    added: LoadableObject<D, T, M, F>,
)
    requires
        !has_name(objects, added.reference@),
        !added.loaded,
    ensures
        first_index(objects.push(added), is_unloaded_named(added.reference@)) == objects.len(),
        objects.push(added).remove(objects.len() as int) == objects,
        !has_name(objects.push(added).remove(objects.len() as int), added.reference@),
{
    let s = objects.push(added);
    let p = is_unloaded_named::<D, T, M, F>(added.reference@);
    assert forall|k: int| 0 <= k < objects.len() implies !p(#[trigger] s[k]) by {
        assert(s[k] == objects[k]);
        assert(!named(objects[k], added.reference@));
    }
    lemma_first_index_at(s, p, objects.len() as int);
    assert(s.remove(objects.len() as int) =~= objects);
}

/// Marking models as not loaded keeps every resource's name and kind, so which names
/// are taken does not change.
pub proof fn lemma_unload_models_keeps_names<D, T, M, F>(
    objects: Seq<LoadableObject<D, T, M, F>>,
    r: Seq<char>,
    name: Seq<char>,
)
    ensures
        unload_models(objects, r).len() == objects.len(),
        has_name(unload_models(objects, r), name) == has_name(objects, name),
        forall|k: int|
            0 <= k < objects.len() ==> (#[trigger] unload_models(objects, r)[k]).reference
                == objects[k].reference && unload_models(objects, r)[k].object_type
                == objects[k].object_type,
{
    let u = unload_models(objects, r);
    if has_name(objects, name) {
        let i = choose|i: int| 0 <= i < objects.len() && named(#[trigger] objects[i], name);
        assert(named(u[i], name));
    }
    if has_name(u, name) {
        let i = choose|i: int| 0 <= i < u.len() && named(#[trigger] u[i], name);
        assert(named(objects[i], name));
    }
}

} // verus!
