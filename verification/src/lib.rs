//! The core of a small game engine, verified: time and timing, the job queue's manager, the main loop's timing
//! decisions, physical screen coordinates, input buttons, type-level lists, resets, cursor icons, texture arrays,
//! and shader include directives.
use vstd::prelude::*;

pub mod camera;
pub mod clock;
pub mod cursor;
pub mod input;
pub mod job_queue;
pub mod list;
pub mod reset;
pub mod run;
pub mod screen;
pub mod shader_include;
pub mod texture_def;
pub mod time;
pub mod timing;

verus! {

} // verus!
