//! The preset scenes and the files they are written to by default.

use vstd::prelude::*;
use crate::decimal::digit_char;

verus! {

/// The number of preset scenes; they are numbered from 1.
pub const SCENE_COUNT: u32 = 4;

/// The preset scenes.
#[derive(Clone, Copy, Debug, PartialEq, Eq, Structural)]
pub enum SceneVariant {
    /// A sphere above a ground plane.
    Sphere,
    /// A ground plane and a cube, dimmer than the other presets.
    PlaneAndCube,
    /// One object of each kind: plane, sphere, cube and cylinder.
    AllObjects,
    /// The objects of `AllObjects`, seen from another camera position.
    AllObjectsSecondCamera,
}

/// The preset that a scene number selects: 1, 2 and 3 select the first
/// three presets, and every other number selects the fourth.
pub open spec fn spec_scene_variant(scene_id: u32) -> SceneVariant {
    if scene_id == 1 {
        SceneVariant::Sphere
    } else if scene_id == 2 {
        SceneVariant::PlaneAndCube
    } else if scene_id == 3 {
        SceneVariant::AllObjects
    } else {
        SceneVariant::AllObjectsSecondCamera
    }
}

/// The preset that a scene number selects.
pub fn scene_variant(scene_id: u32) -> (v: SceneVariant)
    ensures
        v == spec_scene_variant(scene_id),
{
    if scene_id == 1 {
        SceneVariant::Sphere
    } else if scene_id == 2 {
        SceneVariant::PlaneAndCube
    } else if scene_id == 3 {
        SceneVariant::AllObjects
    } else {
        SceneVariant::AllObjectsSecondCamera
    }
}

/// The file that a preset is written to when no output path is given.
pub open spec fn spec_variant_file_name(v: SceneVariant) -> Seq<char> {
    match v {
        SceneVariant::Sphere => "scene1_sphere.ppm"@,
        SceneVariant::PlaneAndCube => "scene2_plane_cube_dim.ppm"@,
        SceneVariant::AllObjects => "scene3_all_objects.ppm"@,
        SceneVariant::AllObjectsSecondCamera => "scene4_all_objects_cam2.ppm"@,
    }
}

/// The file that scene `scene_id` is written to when no output path is given.
pub open spec fn spec_default_output_name(scene_id: u32) -> Seq<char> {
    spec_variant_file_name(spec_scene_variant(scene_id))
}

/// The file that scene `scene_id` is written to when no output path is given.
pub fn default_output_name(scene_id: u32) -> (name: &'static str)
    ensures
        name@ == spec_default_output_name(scene_id),
{
    match scene_variant(scene_id) {
        SceneVariant::Sphere => "scene1_sphere.ppm",
        SceneVariant::PlaneAndCube => "scene2_plane_cube_dim.ppm",
        SceneVariant::AllObjects => "scene3_all_objects.ppm",
        SceneVariant::AllObjectsSecondCamera => "scene4_all_objects_cam2.ppm",
    }
}

/// Every preset is written to its own file by default, so rendering all of
/// them leaves one file per scene.
pub proof fn lemma_default_output_names_distinct(a: u32, b: u32)
    requires
        1 <= a <= SCENE_COUNT,
        1 <= b <= SCENE_COUNT,
        a != b,
    ensures
        spec_default_output_name(a) != spec_default_output_name(b),
{
    reveal_strlit("scene1_sphere.ppm");
    reveal_strlit("scene2_plane_cube_dim.ppm");
    reveal_strlit("scene3_all_objects.ppm");
    reveal_strlit("scene4_all_objects_cam2.ppm");
    if spec_default_output_name(a) == spec_default_output_name(b) {
        assert(spec_default_output_name(a)[5] == spec_default_output_name(b)[5]);
    }
}

/// The default file of scene `i` is named `scene<i>_...ppm`: it starts with
/// `scene` and the scene's digit and ends with `.ppm`.
pub proof fn lemma_default_output_name_shape(i: u32)
    requires
        1 <= i <= SCENE_COUNT,
    ensures
        ({
            let n = spec_default_output_name(i);
            &&& n.len() > 10
            &&& n.subrange(0, 5) == seq!['s', 'c', 'e', 'n', 'e']
            &&& n[5] == digit_char(i as nat)
            &&& n[6] == '_'
            &&& n.subrange(n.len() - 4, n.len() as int) == seq!['.', 'p', 'p', 'm']
        }),
{
    reveal_strlit("scene1_sphere.ppm");
    reveal_strlit("scene2_plane_cube_dim.ppm");
    reveal_strlit("scene3_all_objects.ppm");
    reveal_strlit("scene4_all_objects_cam2.ppm");
    let n = spec_default_output_name(i);
    assert(n.subrange(0, 5) =~= seq!['s', 'c', 'e', 'n', 'e']);
    assert(n.subrange(n.len() - 4, n.len() as int) =~= seq!['.', 'p', 'p', 'm']);
}

} // verus!
