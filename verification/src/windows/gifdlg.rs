//! GIF recording settings and the plan a recording follows.

use vstd::prelude::*;
use crate::platform::Rect;

verus! {

#[derive(Clone, Copy, Debug, PartialEq, Eq, Structural)]
pub enum RecordStatus {
    Init,
    Recording,
    Pause,
    Stop,
    Playing,
}

impl Default for RecordStatus {
    fn default() -> (s: Self)
        ensures
            s == RecordStatus::Init,
    {
        RecordStatus::Init
    }
}

/// Recording settings; the duration is in milliseconds.
#[derive(Clone, Copy, Debug, PartialEq, Eq, Structural)]
pub struct GifRecordOptions {
    pub fps: u32,
    pub max_duration_ms: u128,
    pub max_cache_bytes: usize,
}

impl Default for GifRecordOptions {
    fn default() -> (o: Self)
        ensures
            o.fps == 10 && o.max_duration_ms == 300_000 && o.max_cache_bytes == 150 * 1024 * 1024,
    {
        GifRecordOptions { fps: 10, max_duration_ms: 300_000, max_cache_bytes: 150 * 1024 * 1024 }
    }
}

/// What a recording of a region does: the GIF size, the delay between
/// captured frames in milliseconds, and how many frames it captures at most.
#[derive(Clone, Copy, Debug, PartialEq, Eq, Structural)]
pub struct GifRecordPlan {
    pub width: u16,
    pub height: u16,
    pub frame_delay_ms: u128,
    pub frame_budget: usize,
}

/// The frame delay for `fps` frames per second: `1000 / fps` ms (at least 1),
/// a rate of 0 counting as 1.
pub open spec fn spec_frame_delay_ms(fps: u32) -> u128 {
    let rate = if fps >= 1 { fps } else { 1 };
    if 1000u32 / rate >= 1 { (1000u32 / rate) as u128 } else { 1u128 }
}

/// Plans the recording of `region`: `None` when a side is not positive or
/// does not fit in 16 bits.
pub fn plan_recording(region: Rect, options: GifRecordOptions) -> (plan: Option<GifRecordPlan>)
    ensures
        plan is Some <==> (0 < region.w <= u16::MAX && 0 < region.h <= u16::MAX),
        plan matches Some(p) ==> {
            &&& p.width == region.w
            &&& p.height == region.h
            &&& p.frame_delay_ms == spec_frame_delay_ms(options.fps)
            &&& p.frame_budget == (options.max_duration_ms / spec_frame_delay_ms(options.fps)) as usize
        },
{
    if region.w <= 0 || region.h <= 0 || region.w > u16::MAX as i32 || region.h > u16::MAX as i32 {
        return None;
    }
    let rate = if options.fps >= 1 { options.fps } else { 1 };
    let frame_delay_ms = if 1000 / rate >= 1 { (1000 / rate) as u128 } else { 1 };
    let frame_budget = (options.max_duration_ms / frame_delay_ms) as usize;
    Some(GifRecordPlan { width: region.w as u16, height: region.h as u16, frame_delay_ms, frame_budget })
}

} // verus!
