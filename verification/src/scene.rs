//! The built-in scene of transparent quads and meshes.
use crate::ieee;
use crate::order::{
    as_ints, comes_before, gathered, gathering_keeps_contents, is_stable_descending, permute,
    stable_descending_is_permutation, stable_descending_order,
};
use crate::sorter::{order_keys, ranks};
use vstd::prelude::*;

verus! {

/// Triangles of an object.
pub struct Mesh {
    /// Vertex data, as the words of a vertex buffer.
    pub vertices: Vec<u32>,
    pub indices: Vec<u16>,
}

/// Transform and tint of an object, as the shaders see them.
#[derive(Clone, Copy)]
pub struct ObjectUniform {
    /// Columns of the model matrix.
    pub model: [[u32; 4]; 4],
    pub color: [u32; 4],
}

impl ObjectUniform {
    /// The twenty words of the uniform buffer.
    pub open spec fn words(self) -> Seq<u32> {
        self.model@[0]@ + self.model@[1]@ + self.model@[2]@ + self.model@[3]@ + self.color@
    }

    /// The uniform as the words of a buffer.
    pub fn to_words(&self) -> (words: Vec<u32>)
        ensures
            words@ == self.words(),
            words@.len() == 20,
            forall|c: int, r: int|
                0 <= c < 4 && 0 <= r < 4 ==> words@[4 * c + r] == #[trigger] self.model@[c]@[r],
            forall|r: int| 0 <= r < 4 ==> words@[16 + r] == #[trigger] self.color@[r],
    {
        let mut words: Vec<u32> = Vec::with_capacity(20);
        let mut c: usize = 0;
        while c < 4
            invariant
                c <= 4,
                words@.len() == 4 * c,
                forall|j: int|
                    0 <= j < words@.len() ==> #[trigger] words@[j] == self.model@[j / 4]@[j % 4],
            decreases 4 - c,
        {
            let column = self.model[c];
            words.push(column[0]);
            words.push(column[1]);
            words.push(column[2]);
            words.push(column[3]);
            c = c + 1;
        }
        words.push(self.color[0]);
        words.push(self.color[1]);
        words.push(self.color[2]);
        words.push(self.color[3]);
        proof {
            assert(words@ =~= self.words());
        }
        words
    }
}

/// An object of the scene.
pub struct SceneObject {
    pub mesh: Mesh,
    /// Model matrix, column by column.
    pub transform: [u32; 16],
    pub color: [u32; 4],
    /// Whether the object can be hidden with the other meshes.
    pub is_extra_mesh: bool,
    /// Opacity of the vertices.
    pub original_alpha: u32,
}

impl SceneObject {
    /// An object with a white tint.
    pub fn new(mesh: Mesh, transform: [u32; 16], original_alpha: u32, is_extra_mesh: bool) -> (object:
        Self)
        ensures
            object.mesh == mesh,
            object.transform == transform,
            object.color@ == seq![ieee::ONE, ieee::ONE, ieee::ONE, ieee::ONE],
            object.is_extra_mesh == is_extra_mesh,
            object.original_alpha == original_alpha,
    {
        SceneObject {
            mesh,
            transform,
            color: [ieee::ONE, ieee::ONE, ieee::ONE, ieee::ONE],
            is_extra_mesh,
            original_alpha,
        }
    }

    /// Whether `uniform` holds the object's transform and tint.
    pub open spec fn has_uniform(self, uniform: ObjectUniform) -> bool {
        &&& forall|c: int, r: int|
            0 <= c < 4 && 0 <= r < 4 ==> (#[trigger] uniform.model@[c]@[r])
                == self.transform@[4 * c + r]
        &&& uniform.color == self.color
    }

    /// The object's transform and tint for the shaders.
    pub fn uniform(&self) -> (uniform: ObjectUniform)
        ensures
            self.has_uniform(uniform),
    {
        let t = self.transform;
        let first: [u32; 4] = [t[0], t[1], t[2], t[3]];
        let second: [u32; 4] = [t[4], t[5], t[6], t[7]];
        let third: [u32; 4] = [t[8], t[9], t[10], t[11]];
        let fourth: [u32; 4] = [t[12], t[13], t[14], t[15]];
        let model: [[u32; 4]; 4] = [first, second, third, fourth];
        ObjectUniform { model, color: self.color }
    }

    /// Whether an object is drawn with `uniform`. In an opaque scene the tint's alpha becomes
    /// `inverse_alpha`, the inverse of the opacity of the vertices.
    pub open spec fn is_drawn_with(
        self,
        uniform: ObjectUniform,
        force_opaque: bool,
        inverse_alpha: u32,
    ) -> bool {
        &&& forall|c: int, r: int|
            0 <= c < 4 && 0 <= r < 4 ==> (#[trigger] uniform.model@[c]@[r])
                == self.transform@[4 * c + r]
        &&& uniform.color@ == if force_opaque {
            self.color@.update(3, inverse_alpha)
        } else {
            self.color@
        }
    }

    /// The uniform that an object is drawn with.
    pub fn frame_uniform(&self, force_opaque: bool, inverse_alpha: u32) -> (uniform: ObjectUniform)
        ensures
            self.is_drawn_with(uniform, force_opaque, inverse_alpha),
    {
        let uniform = self.uniform();
        if force_opaque {
            let c = uniform.color;
            let color: [u32; 4] = [c[0], c[1], c[2], inverse_alpha];
            proof {
                assert(color@ =~= self.color@.update(3, inverse_alpha));
            }
            ObjectUniform { model: uniform.model, color }
        } else {
            uniform
        }
    }
}

pub struct Scene {
    pub objects: Vec<SceneObject>,
    pub show_meshes: bool,
    pub force_opaque: bool,
    pub time: u32,
}

/// The mesh of an object and where it stands.
pub struct Shape {
    pub mesh: Mesh,
    /// Model matrix, column by column.
    pub transform: [u32; 16],
}

/// Bit patterns of the opacities of the built-in objects: six quads (0.4, 0.5, 0.45, 0.35, 0.55,
/// 0.5), the cube (0.3) and the sphere (0.35).
pub open spec fn built_in_alphas() -> Seq<u32> {
    seq![
        0x3ecc_cccdu32,
        0x3f00_0000,
        0x3ee6_6666,
        0x3eb3_3333,
        0x3f0c_cccd,
        0x3f00_0000,
        0x3e99_999a,
        0x3eb3_3333,
    ]
}

impl Scene {
    /// The built-in scene: six overlapping translucent quads, then a cube and a sphere that can
    /// be hidden. Meshes are shown and nothing is forced to be opaque.
    pub fn new(
        quads: (Shape, Shape, Shape, Shape, Shape, Shape),
        cube: Shape,
        sphere: Shape,
    ) -> (scene: Self)
        ensures
            scene.objects@.len() == 8,
            forall|i: int|
                0 <= i < 8 ==> {
                    let shape = seq![
                        quads.0,
                        quads.1,
                        quads.2,
                        quads.3,
                        quads.4,
                        quads.5,
                        cube,
                        sphere,
                    ][i];
                    let object = #[trigger] scene.objects@[i];
                    &&& object.mesh == shape.mesh
                    &&& object.transform == shape.transform
                    &&& object.color@ == seq![ieee::ONE, ieee::ONE, ieee::ONE, ieee::ONE]
                    &&& object.is_extra_mesh <==> i >= 6
                    &&& object.original_alpha == built_in_alphas()[i]
                },
            scene.show_meshes,
            !scene.force_opaque,
            scene.time == ieee::ZERO,
    {
        let objects = vec![
            SceneObject::new(quads.0.mesh, quads.0.transform, 0x3ecc_cccd, false),
            SceneObject::new(quads.1.mesh, quads.1.transform, 0x3f00_0000, false),
            SceneObject::new(quads.2.mesh, quads.2.transform, 0x3ee6_6666, false),
            SceneObject::new(quads.3.mesh, quads.3.transform, 0x3eb3_3333, false),
            SceneObject::new(quads.4.mesh, quads.4.transform, 0x3f0c_cccd, false),
            SceneObject::new(quads.5.mesh, quads.5.transform, 0x3f00_0000, false),
            SceneObject::new(cube.mesh, cube.transform, 0x3e99_999a, true),
            SceneObject::new(sphere.mesh, sphere.transform, 0x3eb3_3333, true),
        ];
        Scene { objects, show_meshes: true, force_opaque: false, time: ieee::ZERO }
    }

    /// Advances the scene to `time`: the last object but one turns to `cube`, the last one to
    /// `sphere`. Everything else stays.
    pub fn update(&mut self, time: u32, cube: [u32; 16], sphere: [u32; 16])
        ensures
            final(self).time == time,
            final(self).show_meshes == old(self).show_meshes,
            final(self).force_opaque == old(self).force_opaque,
            final(self).objects@.len() == old(self).objects@.len(),
            forall|i: int|
                0 <= i < final(self).objects@.len() ==> (#[trigger] final(self).objects@[i]) == (
                SceneObject {
                    transform: if i == final(self).objects@.len() - 1 {
                        sphere
                    } else if i == final(self).objects@.len() - 2 {
                        cube
                    } else {
                        old(self).objects@[i].transform
                    },
                    ..old(self).objects@[i]
                }),
    {
        self.time = time;
        let n: usize = self.objects.len();
        if n >= 2 {
            self.objects[n - 2].transform = cube;
        }
        if n >= 1 {
            self.objects[n - 1].transform = sphere;
        }
    }

    /// Whether object `i` is drawn.
    pub open spec fn is_visible(self, i: int) -> bool {
        0 <= i < self.objects@.len() && (!self.objects@[i].is_extra_mesh || self.show_meshes)
    }

    /// The objects that are drawn, in the order of the scene.
    pub fn visible_objects(&self) -> (visible: Vec<usize>)
        ensures
            is_increasing(visible@),
            forall|i: usize| #[trigger] visible@.contains(i) <==> self.is_visible(i as int),
            forall|i: usize|
                i < self.objects@.len() && self.show_meshes ==> #[trigger] visible@.contains(i),
            forall|i: usize|
                i < self.objects@.len() && !self.show_meshes ==> (#[trigger] visible@.contains(i)
                    <==> !self.objects@[i as int].is_extra_mesh),
            forall|a: int, b: int|
                0 <= a < b < visible@.len() ==> #[trigger] visible@[a] < #[trigger] visible@[b],
    {
        let mut visible: Vec<usize> = Vec::new();
        let mut i: usize = 0;
        while i < self.objects.len()
            invariant
                i <= self.objects@.len(),
                is_increasing(visible@),
                forall|a: int| 0 <= a < visible@.len() ==> (#[trigger] visible@[a]) < i,
                forall|a: usize| #[trigger]
                    visible@.contains(a) <==> a < i && self.is_visible(a as int),
            decreases self.objects@.len() - i,
        {
            let ghost before = visible@;
            if !self.objects[i].is_extra_mesh || self.show_meshes {
                visible.push(i);
                proof {
                    assert forall|a: usize| #[trigger] visible@.contains(a) <==> a < i + 1
                        && self.is_visible(a as int) by {
                        if a == i {
                            assert(visible@[before.len() as int] == i);
                        } else {
                            assert(visible@.contains(a) ==> before.contains(a));
                            if before.contains(a) {
                                let p = choose|p: int| 0 <= p < before.len() && before[p] == a;
                                assert(visible@[p] == a);
                            }
                        }
                    }
                }
            }
            i = i + 1;
        }
        visible
    }
}

/// Whether a list of indices is strictly increasing.
pub open spec fn is_increasing(list: Seq<usize>) -> bool {
    forall|i: int, j: int| 0 <= i < j < list.len() ==> list[i] < list[j]
}

/// The distances of the listed objects.
pub open spec fn distances_of(list: Seq<usize>, distances: Seq<u32>) -> Seq<u32> {
    Seq::new(list.len(), |i: int| distances[list[i] as int])
}

/// Sorts the listed objects back to front: the most distant comes first, objects at the same
/// distance keep their order. `distances` holds the squared distance of each object of the
/// scene from the eye.
pub fn sort_back_to_front(list: &Vec<usize>, distances: &[u32]) -> (sorted: Vec<usize>)
    requires
        list@.len() <= u32::MAX,
        forall|i: int| 0 <= i < list@.len() ==> (#[trigger] list@[i]) < distances@.len(),
    ensures
        exists|order: Seq<u32>|
            #![trigger is_stable_descending(ranks(distances_of(list@, distances@)), order)]
            is_stable_descending(ranks(distances_of(list@, distances@)), order) && sorted@
                == gathered(list@, order),
{
    let mut picked: Vec<u32> = Vec::with_capacity(list.len());
    let mut i: usize = 0;
    while i < list.len()
        invariant
            i <= list@.len(),
            picked@.len() == i,
            forall|a: int| 0 <= a < list@.len() ==> (#[trigger] list@[a]) < distances@.len(),
            forall|a: int|
                0 <= a < i ==> #[trigger] picked@[a] == distances@[list@[a] as int],
        decreases list@.len() - i,
    {
        picked.push(distances[list[i]]);
        i = i + 1;
    }
    let keys = order_keys(picked.as_slice(), picked.len());
    let order = stable_descending_order(keys.as_slice());
    proof {
        assert(picked@ =~= distances_of(list@, distances@));
        assert(as_ints(keys@) =~= ranks(distances_of(list@, distances@)));
    }
    permute(list.as_slice(), order.as_slice())
}

/// Sorting back to front draws the same objects, each as often as before, and no object in
/// front of one that is drawn after it is more distant.
pub proof fn sorted_objects_recede(
    list: Seq<usize>,
    distances: Seq<u32>,
    order: Seq<u32>,
    i: int,
    j: int,
)
    requires
        is_stable_descending(ranks(distances_of(list, distances)), order),
        0 <= i < j < order.len(),
        !ieee::is_nan(distances[gathered(list, order)[i] as int]),
        !ieee::is_nan(distances[gathered(list, order)[j] as int]),
    ensures
        gathered(list, order).to_multiset() == list.to_multiset(),
        ieee::value(distances[gathered(list, order)[i] as int]) >= ieee::value(
            distances[gathered(list, order)[j] as int],
        ),
{
    let picked = distances_of(list, distances);
    stable_descending_is_permutation(ranks(picked), order);
    gathering_keeps_contents(list, order);
    ieee::rank_orders_values(picked[order[i] as int], picked[order[j] as int]);
    assert(comes_before(ranks(picked), order[i], order[j]));
}

/// What is shown: the quads always, the other meshes exactly while meshes are shown.
pub proof fn meshes_can_be_hidden(scene: Scene, i: int)
    requires
        0 <= i < scene.objects@.len(),
    ensures
        scene.show_meshes ==> scene.is_visible(i),
        !scene.objects@[i].is_extra_mesh ==> scene.is_visible(i),
        scene.objects@[i].is_extra_mesh && !scene.show_meshes ==> !scene.is_visible(i),
{
}

/// Nothing outside the scene is shown.
pub proof fn only_objects_are_shown(scene: Scene, i: int)
    requires
        scene.is_visible(i),
    ensures
        0 <= i < scene.objects@.len(),
{
}

/// Making a scene opaque changes the tint's alpha and nothing else of what an object is drawn with.
pub proof fn opacity_changes_alpha_only(
    object: SceneObject,
    uniform: ObjectUniform,
    opaque: ObjectUniform,
    inverse_alpha: u32,
    c: int,
    r: int,
)
    requires
        object.is_drawn_with(uniform, false, inverse_alpha),
        object.is_drawn_with(opaque, true, inverse_alpha),
        0 <= c < 4,
        0 <= r < 4,
    ensures
        uniform.model@[c]@[r] == object.transform@[4 * c + r],
        opaque.model@[c]@[r] == uniform.model@[c]@[r],
        uniform.color@[r] == object.color@[r],
        r < 3 ==> opaque.color@[r] == object.color@[r],
        opaque.color@[3] == inverse_alpha,
{
}

/// Objects at the same distance keep their order, none is listed twice where none was, and one
/// whose distance is no number comes after those whose is.
pub proof fn sorting_keeps_ties_in_order(
    list: Seq<usize>,
    distances: Seq<u32>,
    order: Seq<u32>,
    i: int,
    j: int,
)
    requires
        is_increasing(list),
        is_stable_descending(ranks(distances_of(list, distances)), order),
        0 <= i < j < order.len(),
    ensures
        gathered(list, order)[i] != gathered(list, order)[j],
        ieee::is_nan(distances[gathered(list, order)[i] as int]) ==> ieee::is_nan(
            distances[gathered(list, order)[j] as int],
        ),
        !ieee::is_nan(distances[gathered(list, order)[i] as int]) && !ieee::is_nan(
            distances[gathered(list, order)[j] as int],
        ) && ieee::value(distances[gathered(list, order)[i] as int]) == ieee::value(
            distances[gathered(list, order)[j] as int],
        ) ==> gathered(list, order)[i] < gathered(list, order)[j],
{
    let picked = distances_of(list, distances);
    assert(comes_before(ranks(picked), order[i], order[j]));
    ieee::nan_patterns_lie_beyond_infinity(picked[order[i] as int]);
    if !ieee::is_nan(picked[order[i] as int]) && !ieee::is_nan(picked[order[j] as int]) {
        ieee::rank_orders_values(picked[order[i] as int], picked[order[j] as int]);
    }
}

/// A uniform holds the model matrix column by column, and the tint.
pub proof fn uniforms_hold_their_object(object: SceneObject, uniform: ObjectUniform, c: int, r: int)
    requires
        object.has_uniform(uniform),
        0 <= c < 4,
        0 <= r < 4,
    ensures
        uniform.model@[c]@[r] == object.transform@[4 * c + r],
        uniform.color@[r] == object.color@[r],
{
}

} // verus!
