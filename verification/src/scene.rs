use vstd::prelude::*;
use std::collections::BTreeMap;
use crate::geometry3::Vec3;

verus! {

broadcast use {vstd::std_specs::btree::group_btree_axioms, vstd::laws_cmp::group_laws_cmp};

/// A triangular face of a model: the (1-based) indices of its three vertices and of their
/// three texture vertices.
#[derive(PartialEq, Eq, Copy, Clone, Debug)]
pub struct Face {
    pub v_index: (usize, usize, usize),
    pub vt_index: (usize, usize, usize),
}

/// What is drawn: the objects of type `O`, a shared depth buffer `Z`, a light direction,
/// and the registered textures of type `I`, each under the number it was given.
pub struct Scene<O, Z, I, D>
    where D: Copy + Clone
{
    width: u32,
    height: u32,
    objects: Vec<O>,
    light_direction: Vec3<D>,
    zbuffer: Z,
    textures: TextureRegistry<I>,
}

/// Textures under the numbers they were given; numbers are given out one after the other.
struct TextureRegistry<I> {
    textures_map: BTreeMap<u32, I>,
    counter: u32,
}

impl<I> TextureRegistry<I> {
    /// Numbers are given out from 2 on, and every registered number lies between 2 and the
    /// last number given out.
    #[verifier::type_invariant]
    closed spec fn numbers_given_out(self) -> bool {
        &&& self.counter >= 1
        &&& forall|k: u32| #[trigger] self.textures_map@.contains_key(k) ==> 1 < k <= self.counter
    }

    closed spec fn map(&self) -> Map<u32, I> {
        self.textures_map@
    }

    closed spec fn last(&self) -> u32 {
        self.counter
    }

    fn new() -> (r: Self)
        ensures
            r.map() == Map::<u32, I>::empty(),
            r.last() == 1,
    {
        TextureRegistry { textures_map: BTreeMap::new(), counter: 1 }
    }

    fn register(&mut self, img: I) -> (r: u32)
        requires
            old(self).last() < u32::MAX,
        ensures
            r == old(self).last() + 1,
            final(self).last() == r,
            !old(self).map().contains_key(r),
            final(self).map() == old(self).map().insert(r, img),
    {
        proof {
            use_type_invariant(&*self);
        }
        let next = self.counter + 1;
        let mut textures = BTreeMap::new();
        std::mem::swap(&mut textures, &mut self.textures_map);
        textures.insert(next, img);
        *self = TextureRegistry { textures_map: textures, counter: next };
        next
    }

    fn get(&self, id: u32) -> (r: Option<&I>)
        ensures
            match r {
                Some(v) => self.map().contains_key(id) && *v == self.map()[id],
                None => !self.map().contains_key(id),
            },
    {
        self.textures_map.get(&id)
    }
}

impl<O, Z, I, D> Scene<O, Z, I, D>
    where D: Copy + Clone
{
    /// The width the scene was made with.
    pub closed spec fn width(&self) -> u32 {
        self.width
    }

    /// The height the scene was made with.
    pub closed spec fn height(&self) -> u32 {
        self.height
    }

    /// The objects, in the order they were added.
    pub closed spec fn objects(&self) -> Seq<O> {
        self.objects@
    }

    /// The light direction.
    pub closed spec fn light_direction(&self) -> Vec3<D> {
        self.light_direction
    }

    /// The depth buffer handle.
    pub closed spec fn zbuffer(&self) -> Z {
        self.zbuffer
    }

    /// The registered textures, by number.
    pub closed spec fn textures(&self) -> Map<u32, I> {
        self.textures.map()
    }

    /// The last number given out (1 before the first registration).
    pub closed spec fn counter(&self) -> u32 {
        self.textures.last()
    }

    /// A scene of size `width × height` with no objects and no textures, drawing into
    /// `zbuffer`.
    pub fn new(width: u32, height: u32, zbuffer: Z, light_direction: Vec3<D>) -> (r: Self)
        ensures
            r.width() == width,
            r.height() == height,
            r.objects() == Seq::<O>::empty(),
            r.light_direction() == light_direction,
            r.zbuffer() == zbuffer,
            r.textures() == Map::<u32, I>::empty(),
            r.counter() == 1,
    {
        Scene {
            width: width,
            height: height,
            objects: Vec::<O>::new(),
            light_direction: light_direction,
            zbuffer: zbuffer,
            textures: TextureRegistry::new(),
        }
    }

    /// A new handle to the depth buffer.
    pub fn get_zbuffer(&self) -> (r: Z)
        where Z: Clone
        ensures
            cloned(self.zbuffer(), r),
    {
        self.zbuffer.clone()
    }

    /// Adds `object` after the others.
    pub fn add_object(&mut self, object: O)
        ensures
            final(self).objects() == old(self).objects().push(object),
            final(self).width() == old(self).width(),
            final(self).height() == old(self).height(),
            final(self).light_direction() == old(self).light_direction(),
            final(self).zbuffer() == old(self).zbuffer(),
            final(self).textures() == old(self).textures(),
            final(self).counter() == old(self).counter(),
    {
        self.objects.push(object);
    }

    /// The objects, to read or change in place.
    pub fn get_objects(&mut self) -> (r: &mut Vec<O>)
        ensures
            r@ == old(self).objects(),
            final(self).objects() == final(r)@,
            final(self).width() == old(self).width(),
            final(self).height() == old(self).height(),
            final(self).light_direction() == old(self).light_direction(),
            final(self).zbuffer() == old(self).zbuffer(),
            final(self).textures() == old(self).textures(),
            final(self).counter() == old(self).counter(),
    {
        &mut self.objects
    }

    /// Registers `img` under the next number and returns that number.
    pub fn register_resourse(&mut self, img: I) -> (r: u32)
        requires
            old(self).counter() < u32::MAX,
        ensures
            r == old(self).counter() + 1,
            final(self).counter() == r,
            !old(self).textures().contains_key(r),
            final(self).textures() == old(self).textures().insert(r, img),
            final(self).objects() == old(self).objects(),
            final(self).width() == old(self).width(),
            final(self).height() == old(self).height(),
            final(self).light_direction() == old(self).light_direction(),
            final(self).zbuffer() == old(self).zbuffer(),
    {
        self.textures.register(img)
    }

    /// A new handle to the texture registered under `id`, if there is one.
    pub fn get_texture(&self, id: u32) -> (r: Option<I>)
        where I: Clone
        ensures
            match r {
                Some(v) => self.textures().contains_key(id) && cloned(self.textures()[id], v),
                None => !self.textures().contains_key(id),
            },
    {
        if let Some(res) = self.textures.get(id) {
            return Some(res.clone());
        }
        None
    }
}

/// A texture can be found under the number it was registered with, and every texture
/// registered before keeps its number: registering `img` under a fresh number `id` gives the
/// map `textures.insert(id, img)`.
pub proof fn lemma_registered_texture_is_found<I>(textures: Map<u32, I>, id: u32, img: I, other: u32)
    requires
        !textures.contains_key(id),
    ensures
        textures.insert(id, img).contains_key(id),
        textures.insert(id, img)[id] == img,
        textures.contains_key(other) ==> textures.insert(id, img).contains_key(other)
            && textures.insert(id, img)[other] == textures[other],
{
}

} // verus!
