use lib::cli::{parse_command, run_all, CliError, Command, RenderJob};

fn words(ws: &[&str]) -> Vec<String> {
    ws.iter().map(|w| w.to_string()).collect()
}

fn one(ws: &[&str]) -> RenderJob {
    match parse_command(&words(ws)) {
        Ok(Command::RenderOne(job)) => job,
        other => panic!("expected a single render, got {:?}", other),
    }
}

#[test]
fn no_options_render_scene_one_at_800_by_600() {
    let job = one(&["raytracer"]);
    assert_eq!(job.scene_id, 1);
    assert_eq!(job.width, 800);
    assert_eq!(job.height, 600);
    assert_eq!(job.output, None);
    assert_eq!(job.output_path(), "scene1_sphere.ppm");
}

#[test]
fn single_scene_with_output() {
    let job = one(&["raytracer", "--scene", "3", "--width", "800", "--height", "600", "--output", "my_scene.ppm"]);
    assert_eq!(job.scene_id, 3);
    assert_eq!((job.width, job.height), (800, 600));
    assert_eq!(job.output_path(), "my_scene.ppm");
}

#[test]
fn low_resolution_test_render() {
    let job = one(&["raytracer", "--scene", "3", "--width", "320", "--height", "240", "--output", "test.ppm"]);
    assert_eq!((job.scene_id, job.width, job.height), (3, 320, 240));
    assert_eq!(job.output.as_deref(), Some("test.ppm"));
}

#[test]
fn brightness_is_left_to_the_caller() {
    let job = one(&["raytracer", "--scene", "1", "--brightness", "0.75"]);
    assert_eq!(job.scene_id, 1);
    assert_eq!(job.output, None);
}

#[test]
fn help_wins_over_everything() {
    for ws in [
        &["raytracer", "--help"][..],
        &["raytracer", "-h", "--width", "0"][..],
        &["raytracer", "--all", "--help"][..],
        &["raytracer", "--scene", "9", "-h"][..],
    ] {
        assert!(matches!(parse_command(&words(ws)), Ok(Command::Help)));
    }
}

#[test]
fn zero_size_is_refused() {
    let r = parse_command(&words(&["raytracer", "--width", "0"]));
    assert!(matches!(r, Err(CliError::ZeroSize)));
    let r = parse_command(&words(&["raytracer", "--all", "--height", "0"]));
    assert!(matches!(r, Err(CliError::ZeroSize)));
    assert_eq!(CliError::ZeroSize.message(), "width and height must be > 0");
}

#[test]
fn all_renders_every_scene_at_the_given_size() {
    let r = parse_command(&words(&["raytracer", "--all", "--width", "800", "--height", "600"]));
    assert!(matches!(r, Ok(Command::RenderAll { width: 800, height: 600 })));
    let r = parse_command(&words(&["raytracer", "--all", "--scene", "9"]));
    assert!(matches!(r, Ok(Command::RenderAll { width: 800, height: 600 })));
}

#[test]
fn scene_out_of_range_is_refused() {
    for s in ["0", "5", "100"] {
        let r = parse_command(&words(&["raytracer", "--scene", s]));
        assert!(matches!(r, Err(CliError::SceneOutOfRange)));
    }
    assert_eq!(CliError::SceneOutOfRange.message(), "scene must be in 1..=4");
}

#[test]
fn unreadable_values_fall_back_to_defaults() {
    let job = one(&["raytracer", "--width", "wide", "--height", "-1", "--scene", "4294967296"]);
    assert_eq!((job.scene_id, job.width, job.height), (1, 800, 600));
    let job = one(&["raytracer", "--scene", "+4", "--width", "+0320"]);
    assert_eq!((job.scene_id, job.width), (4, 320));
}

#[test]
fn option_without_value_is_ignored() {
    let job = one(&["raytracer", "--scene", "2", "--output"]);
    assert_eq!(job.scene_id, 2);
    assert_eq!(job.output_path(), "scene2_plane_cube_dim.ppm");
}

#[test]
fn run_all_lists_the_four_presets_in_order() {
    let jobs = run_all(320, 240);
    assert_eq!(jobs.len(), 4);
    let names: Vec<String> = jobs.iter().map(|j| j.output_path()).collect();
    assert_eq!(
        names,
        vec![
            "scene1_sphere.ppm",
            "scene2_plane_cube_dim.ppm",
            "scene3_all_objects.ppm",
            "scene4_all_objects_cam2.ppm"
        ]
    );
    for (i, job) in jobs.iter().enumerate() {
        assert_eq!(job.scene_id as usize, i + 1);
        assert_eq!((job.width, job.height), (320, 240));
        assert_eq!(job.output, None);
    }
}
