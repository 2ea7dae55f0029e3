use lib::scenes::{default_output_name, scene_variant, SceneVariant, SCENE_COUNT};

#[test]
fn scene_numbers_select_presets() {
    assert_eq!(scene_variant(1), SceneVariant::Sphere);
    assert_eq!(scene_variant(2), SceneVariant::PlaneAndCube);
    assert_eq!(scene_variant(3), SceneVariant::AllObjects);
    assert_eq!(scene_variant(4), SceneVariant::AllObjectsSecondCamera);
    assert_eq!(SCENE_COUNT, 4);
}

#[test]
fn other_numbers_select_the_last_preset() {
    assert_eq!(scene_variant(0), SceneVariant::AllObjectsSecondCamera);
    assert_eq!(scene_variant(5), SceneVariant::AllObjectsSecondCamera);
    assert_eq!(scene_variant(u32::MAX), SceneVariant::AllObjectsSecondCamera);
    assert_eq!(default_output_name(0), "scene4_all_objects_cam2.ppm");
}

#[test]
fn default_file_names() {
    assert_eq!(default_output_name(1), "scene1_sphere.ppm");
    assert_eq!(default_output_name(2), "scene2_plane_cube_dim.ppm");
    assert_eq!(default_output_name(3), "scene3_all_objects.ppm");
    assert_eq!(default_output_name(4), "scene4_all_objects_cam2.ppm");
}
