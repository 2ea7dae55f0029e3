//! What a command line asks the renderer to do.
//!
//! Recognised options: `--help` or `-h`; `--all`; `--scene N` with `N` in
//! `1..=4` (default 1); `--width W` (default 800); `--height H` (default 600);
//! `--output FILE`. The brightness option takes a floating-point number and
//! is read by the program itself, with `parse_string_arg`.

use vstd::prelude::*;
use crate::args::{arg_value, arg_views, has_arg, parse_arg, parse_string_arg, spec_parse_arg, text_of};
use crate::scenes::{default_output_name, spec_default_output_name, SCENE_COUNT};
use crate::decimal::{decimal, lemma_parse_decimal_roundtrip, parse_unsigned};

verus! {

/// Image width when the command line gives none.
pub const DEFAULT_WIDTH: usize = 800;

/// Image height when the command line gives none.
pub const DEFAULT_HEIGHT: usize = 600;

/// Scene rendered when the command line gives none.
pub const DEFAULT_SCENE: u32 = 1;

/// One image to render: a preset scene at a size, written to a file.
#[derive(Debug)]
pub struct RenderJob {
    /// The preset scene, numbered from 1.
    pub scene_id: u32,
    /// Image width in pixels.
    pub width: usize,
    /// Image height in pixels.
    pub height: usize,
    /// The file to write; the scene's own file name when `None`.
    pub output: Option<String>,
}

/// What the command line asks for.
#[derive(Debug)]
pub enum Command {
    /// Print the usage text.
    Help,
    /// Render every preset scene, each to its own file.
    RenderAll { width: usize, height: usize },
    /// Render one scene.
    RenderOne(RenderJob),
}

/// A command line that asks for nothing that can be rendered.
#[derive(Clone, Copy, Debug, PartialEq, Eq, Structural)]
pub enum CliError {
    /// The width or the height is zero.
    ZeroSize,
    /// The scene number is outside `1..=4`.
    SceneOutOfRange,
}

/// Whether the command line asks for the usage text.
pub open spec fn spec_wants_help(a: Seq<Seq<char>>) -> bool {
    a.contains("--help"@) || a.contains("-h"@)
}

/// The image width a command line asks for.
pub open spec fn spec_width(a: Seq<Seq<char>>) -> usize {
    match spec_parse_arg::<usize>(a, "--width"@) {
        Some(w) => w,
        None => DEFAULT_WIDTH,
    }
}

/// The image height a command line asks for.
pub open spec fn spec_height(a: Seq<Seq<char>>) -> usize {
    match spec_parse_arg::<usize>(a, "--height"@) {
        Some(h) => h,
        None => DEFAULT_HEIGHT,
    }
}

/// The scene a command line asks for.
pub open spec fn spec_scene(a: Seq<Seq<char>>) -> u32 {
    match spec_parse_arg::<u32>(a, "--scene"@) {
        Some(s) => s,
        None => DEFAULT_SCENE,
    }
}

/// Whether `scene_id` names one of the preset scenes.
pub open spec fn is_scene_id(scene_id: u32) -> bool {
    1 <= scene_id <= SCENE_COUNT
}

/// Reads a command line (the program name first, as the system passes it).
///
/// The usage text wins over everything else; then a zero width or height
/// is refused; then `--all` renders every preset; otherwise the scene number
/// must name a preset, and that one scene is rendered.
pub fn parse_command(args: &[String]) -> (r: Result<Command, CliError>)
    ensures
        ({
            let a = arg_views(args@);
            if spec_wants_help(a) {
                r matches Ok(Command::Help)
            } else if spec_width(a) == 0 || spec_height(a) == 0 {
                r == Err::<Command, CliError>(CliError::ZeroSize)
            } else if a.contains("--all"@) {
                r matches Ok(Command::RenderAll { width, height }) && width == spec_width(a)
                    && height == spec_height(a)
            } else if !is_scene_id(spec_scene(a)) {
                r == Err::<Command, CliError>(CliError::SceneOutOfRange)
            } else {
                r matches Ok(Command::RenderOne(job)) && job.scene_id == spec_scene(a) && job.width
                    == spec_width(a) && job.height == spec_height(a) && text_of(job.output)
                    == arg_value(a, "--output"@)
            }
        }),
        r matches Ok(Command::RenderAll { width, height }) ==> width > 0 && height > 0,
        r matches Ok(Command::RenderOne(job)) ==> job.width > 0 && job.height > 0 && is_scene_id(
            job.scene_id,
        ),
{
    if has_arg(args, "--help") || has_arg(args, "-h") {
        return Ok(Command::Help);
    }
    let width: usize = match parse_arg::<usize>(args, "--width") {
        Some(w) => w,
        None => DEFAULT_WIDTH,
    };
    let height: usize = match parse_arg::<usize>(args, "--height") {
        Some(h) => h,
        None => DEFAULT_HEIGHT,
    };
    if width == 0 || height == 0 {
        return Err(CliError::ZeroSize);
    }
    if has_arg(args, "--all") {
        return Ok(Command::RenderAll { width, height });
    }
    let scene_id: u32 = match parse_arg::<u32>(args, "--scene") {
        Some(s) => s,
        None => DEFAULT_SCENE,
    };
    if scene_id < 1 || scene_id > SCENE_COUNT {
        return Err(CliError::SceneOutOfRange);
    }
    let output = parse_string_arg(args, "--output");
    Ok(Command::RenderOne(RenderJob { scene_id, width, height, output }))
}

impl CliError {
    /// The message printed when a command line is refused.
    pub fn message(&self) -> (m: &'static str)
        ensures
            m@ == match self {
                CliError::ZeroSize => "width and height must be > 0"@,
                CliError::SceneOutOfRange => "scene must be in 1..=4"@,
            },
    {
        match self {
            CliError::ZeroSize => "width and height must be > 0",
            CliError::SceneOutOfRange => "scene must be in 1..=4",
        }
    }
}

impl RenderJob {
    /// The file this job writes: the one asked for, or else the scene's own.
    pub fn output_path(&self) -> (p: String)
        ensures
            p@ == match self.output {
                Some(o) => o@,
                None => spec_default_output_name(self.scene_id),
            },
    {
        match &self.output {
            Some(o) => o.clone(),
            None => default_output_name(self.scene_id).to_owned(),
        }
    }
}

/// The jobs that render every preset scene in order, at the given size,
/// each to its own default file.
pub fn run_all(width: usize, height: usize) -> (jobs: Vec<RenderJob>)
    ensures
        jobs.len() == 4,
        forall|i: int|
            0 <= i < jobs.len() ==> (#[trigger] jobs[i]).scene_id == i + 1 && jobs[i].width == width
                && jobs[i].height == height && jobs[i].output is None,
{
    let mut jobs: Vec<RenderJob> = Vec::new();
    let mut scene_id: u32 = 1;
    while scene_id <= SCENE_COUNT
        invariant
            1 <= scene_id <= SCENE_COUNT + 1,
            jobs.len() == scene_id - 1,
            forall|i: int|
                0 <= i < jobs.len() ==> (#[trigger] jobs[i]).scene_id == i + 1 && jobs[i].width
                    == width && jobs[i].height == height && jobs[i].output is None,
        decreases SCENE_COUNT + 1 - scene_id,
    {
        jobs.push(RenderJob { scene_id, width, height, output: None });
        scene_id = scene_id + 1;
    }
    jobs
}

/// The number a command line gives for an option: the word after the first
/// occurrence of `key`, read as an unsigned decimal number no larger than
/// `max`, or else `default`.
pub open spec fn option_number(a: Seq<Seq<char>>, key: Seq<char>, max: nat, default: nat) -> nat {
    match arg_value(a, key) {
        Some(v) => match parse_unsigned(v, max) {
            Some(n) => n,
            None => default,
        },
        None => default,
    }
}

/// Width, height and scene each come from their own option alone: the word
/// after the first `--width` (`--height`, `--scene`) read as an unsigned
/// decimal number that fits the type, and otherwise 800 (600, 1).
pub proof fn lemma_size_and_scene_come_from_their_options(a: Seq<Seq<char>>)
    ensures
        spec_width(a) as nat == option_number(a, "--width"@, usize::MAX as nat, 800),
        spec_height(a) as nat == option_number(a, "--height"@, usize::MAX as nat, 600),
        spec_scene(a) as nat == option_number(a, "--scene"@, u32::MAX as nat, 1),
{
}

/// A command line without a `--width` (`--height`, `--scene`) option asks
/// for width 800 (height 600, scene 1), whatever its other options say.
pub proof fn lemma_missing_option_gives_default(a: Seq<Seq<char>>)
    ensures
        arg_value(a, "--width"@) is None ==> spec_width(a) == 800,
        arg_value(a, "--height"@) is None ==> spec_height(a) == 600,
        arg_value(a, "--scene"@) is None ==> spec_scene(a) == 1,
{
}

/// Two command lines that agree on the value of `--height` ask for the same
/// height, however their other options (`--width` among them) differ; and
/// likewise for the width and the scene.
pub proof fn lemma_options_are_independent(a: Seq<Seq<char>>, b: Seq<Seq<char>>)
    ensures
        arg_value(a, "--width"@) == arg_value(b, "--width"@) ==> spec_width(a) == spec_width(b),
        arg_value(a, "--height"@) == arg_value(b, "--height"@) ==> spec_height(a) == spec_height(
            b,
        ),
        arg_value(a, "--scene"@) == arg_value(b, "--scene"@) ==> spec_scene(a) == spec_scene(b),
{
}

/// A size or scene written in decimal on the command line is the one asked
/// for.
pub proof fn lemma_written_numbers_are_read(a: Seq<Seq<char>>, n: nat)
    ensures
        n <= usize::MAX && arg_value(a, "--width"@) == Some(decimal(n)) ==> spec_width(a) == n,
        n <= usize::MAX && arg_value(a, "--height"@) == Some(decimal(n)) ==> spec_height(a) == n,
        n <= u32::MAX && arg_value(a, "--scene"@) == Some(decimal(n)) ==> spec_scene(a) == n,
{
    if n <= usize::MAX {
        lemma_parse_decimal_roundtrip(n, usize::MAX as nat);
    }
    if n <= u32::MAX {
        lemma_parse_decimal_roundtrip(n, u32::MAX as nat);
    }
}

/// The usage text is asked for exactly when `--help` or `-h` is one of the
/// words of the command line, at any position.
pub proof fn lemma_help_anywhere(a: Seq<Seq<char>>)
    ensures
        spec_wants_help(a) <==> exists|i: int|
            0 <= i < a.len() && (#[trigger] a[i] == "--help"@ || a[i] == "-h"@),
{
    if spec_wants_help(a) {
        if a.contains("--help"@) {
            let i = choose|i: int| 0 <= i < a.len() && a[i] == "--help"@;
            assert(a[i] == "--help"@);
        } else {
            let i = choose|i: int| 0 <= i < a.len() && a[i] == "-h"@;
            assert(a[i] == "-h"@);
        }
    }
}

/// The scenes that can be rendered one at a time are numbered 1 to 4.
pub proof fn lemma_scene_ids(s: u32)
    ensures
        is_scene_id(s) <==> 1 <= s <= 4,
{
}

} // verus!
