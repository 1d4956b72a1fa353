//! A GIF frame cache. Frames are kept as raw RGBA until `encode`; a frame equal
//! to the previous one only lengthens that frame's delay. Durations are in
//! milliseconds and stored in centiseconds, the GIF delay unit.

use vstd::prelude::*;
use crate::bytes::bytes_equal;
use crate::common::gif_encoder::{
    gif_encoder_new, gif_finish, gif_frame_blocks, gif_loop_forever_ext, gif_screen_header,
    gif_set_repeat_infinite, gif_trailer, gif_write_rgba_frame, gif_written,
};

verus! {

/// The default bound on the cached RGBA bytes (150 MiB).
pub const DEFAULT_MAX_CACHE_BYTES: usize = 150 * 1024 * 1024;

/// The default bound on the recording length, in milliseconds (5 minutes).
pub const DEFAULT_MAX_DURATION_MS: u128 = 300_000;

/// The colour-quantisation speed handed to the encoder.
pub const QUANTIZE_SPEED: i32 = 10;

#[derive(Clone, Debug)]
struct CachedFrame {
    rgba: Vec<u8>,
    delay_cs: u16,
}

/// A frame delay in centiseconds: at least 1, at most `u16::MAX`.
pub open spec fn spec_centiseconds(delay_ms: u128) -> u16 {
    let cs = if delay_ms / 10 >= 1 { delay_ms / 10 } else { 1 };
    if cs <= u16::MAX { cs as u16 } else { u16::MAX }
}

/// `a + b` saturated at `u32::MAX`.
pub open spec fn sat_add_u32(a: int, b: int) -> u32 {
    if a + b <= u32::MAX { (a + b) as u32 } else { u32::MAX }
}

/// `a + b` saturated at `u16::MAX`.
pub open spec fn sat_add_u16(a: int, b: int) -> u16 {
    if a + b <= u16::MAX { (a + b) as u16 } else { u16::MAX }
}

/// `a + b` saturated at `usize::MAX`.
pub open spec fn sat_add_usize(a: int, b: int) -> usize {
    if a + b <= usize::MAX { (a + b) as usize } else { usize::MAX }
}

/// The delay of a frame that absorbed another `d` centiseconds.
pub open spec fn merged_delay(old_delay: u16, d: u16) -> u16 {
    let s = sat_add_u16(old_delay as int, d as int);
    if s >= 1 { s } else { 1 }
}

/// The blocks of `frames` (RGBA bytes, delay in centiseconds) in order, each
/// quantised at `QUANTIZE_SPEED` with a delay of at least 1.
pub open spec fn gif_frames_blocks(width: u16, height: u16, frames: Seq<(Seq<u8>, u16)>) -> Seq<u8>
    decreases frames.len(),
{
    if frames.len() == 0 {
        Seq::empty()
    } else {
        let last = frames.last();
        gif_frames_blocks(width, height, frames.drop_last()) + gif_frame_blocks(
            width,
            height,
            last.0,
            QUANTIZE_SPEED,
            if last.1 >= 1 { last.1 } else { 1u16 },
        )
    }
}

/// The GIF file of `frames`: screen descriptor, loop extension, the frames'
/// blocks, trailer.
pub open spec fn gif_file(width: u16, height: u16, frames: Seq<(Seq<u8>, u16)>) -> Seq<u8> {
    (gif_screen_header(width, height) + gif_loop_forever_ext() + gif_frames_blocks(width, height, frames)).push(
        gif_trailer(),
    )
}

/// A fresh copy of `bytes`.
fn copy_bytes(bytes: &Vec<u8>) -> (out: Vec<u8>)
    ensures
        out@ == bytes@,
{
    let mut out: Vec<u8> = Vec::new();
    crate::bytes::push_range(&mut out, bytes.as_slice(), 0, bytes.len());
    assert(bytes@.subrange(0, bytes@.len() as int) =~= bytes@);
    out
}

pub fn duration_to_centiseconds(delay_ms: u128) -> (cs: u16)
    ensures
        cs == spec_centiseconds(delay_ms),
{
    let cs = if delay_ms / 10 >= 1 { delay_ms / 10 } else { 1 };
    if cs <= u16::MAX as u128 { cs as u16 } else { u16::MAX }
}

/// Where an encoding attempt failed.
#[derive(Debug)]
pub enum GifEncodeError {
    /// The GIF encoder refused the stream or a frame.
    Encoding(gif::EncodingError),
    /// The final write of the trailer failed.
    Io(std::io::Error),
}

/// A bounded cache of RGBA frames that encodes to an animated GIF.
#[derive(Clone, Debug)]
pub struct GifTool {
    width: u16,
    height: u16,
    frames: Vec<CachedFrame>,
    cached_bytes: usize,
    max_cache_bytes: usize,
    max_duration_cs: u32,
    duration_cs: u32,
}

impl GifTool {
    pub closed spec fn frame_width(&self) -> u16 {
        self.width
    }

    pub closed spec fn frame_height(&self) -> u16 {
        self.height
    }

    /// The cached frames as (RGBA bytes, delay in centiseconds).
    pub closed spec fn cached_frames(&self) -> Seq<(Seq<u8>, u16)> {
        self.frames@.map_values(|f: CachedFrame| (f.rgba@, f.delay_cs))
    }

    pub closed spec fn cached_len(&self) -> usize {
        self.cached_bytes
    }

    pub closed spec fn cache_limit(&self) -> usize {
        self.max_cache_bytes
    }

    pub closed spec fn duration_limit_cs(&self) -> u32 {
        self.max_duration_cs
    }

    pub closed spec fn total_cs(&self) -> u32 {
        self.duration_cs
    }

    /// The byte length of one RGBA frame.
    pub open spec fn frame_bytes(&self) -> int {
        self.frame_width() * self.frame_height() * 4
    }

    /// Every cached frame holds exactly one frame's worth of bytes.
    pub closed spec fn wf(&self) -> bool {
        forall|i: int| 0 <= i < self.frames@.len() ==> #[trigger] self.frames@[i].rgba@.len() == self.width * self.height * 4
    }

    pub fn new(width: u16, height: u16) -> (t: Self)
        ensures
            t.wf(),
            t.frame_width() == width,
            t.frame_height() == height,
            t.cached_frames() == Seq::<(Seq<u8>, u16)>::empty(),
            t.cached_len() == 0,
            t.cache_limit() == DEFAULT_MAX_CACHE_BYTES,
            t.duration_limit_cs() == DEFAULT_MAX_DURATION_MS / 10,
            t.total_cs() == 0,
    {
        let t = GifTool {
            width,
            height,
            frames: Vec::new(),
            cached_bytes: 0,
            max_cache_bytes: DEFAULT_MAX_CACHE_BYTES,
            max_duration_cs: (DEFAULT_MAX_DURATION_MS / 10) as u32,
            duration_cs: 0,
        };
        assert(t.cached_frames() =~= Seq::<(Seq<u8>, u16)>::empty());
        t
    }

    /// Replaces the cache and duration limits.
    pub fn with_limits(self, max_cache_bytes: usize, max_duration_ms: u128) -> (t: Self)
        ensures
            t.wf() == self.wf(),
            t.frame_width() == self.frame_width(),
            t.frame_height() == self.frame_height(),
            t.cached_frames() == self.cached_frames(),
            t.cached_len() == self.cached_len(),
            t.total_cs() == self.total_cs(),
            t.cache_limit() == max_cache_bytes,
            t.duration_limit_cs() == (max_duration_ms / 10) as u32,
    {
        let mut t = self;
        t.max_cache_bytes = max_cache_bytes;
        t.max_duration_cs = (max_duration_ms / 10) as u32;
        assert(t.wf() == self.wf()) by {
            assert(t.frames == self.frames && t.width == self.width && t.height == self.height);
        }
        t
    }

    /// Adds one RGBA frame shown for `delay_ms`. A frame equal to the last one
    /// only extends that frame. Returns false, changing nothing, when the
    /// frame has the wrong size, would exceed the duration limit, or (when it
    /// is a new frame) would exceed the cache limit.
    pub fn add_frame(&mut self, rgba: &[u8], delay_ms: u128) -> (added: bool)
        requires
            old(self).wf(),
            old(self).frame_bytes() <= usize::MAX,
            old(self).cache_limit() == usize::MAX ==> old(self).cached_len() + rgba@.len() <= usize::MAX,
        ensures
            final(self).wf(),
            ({
                let d = spec_centiseconds(delay_ms);
                let frames = old(self).cached_frames();
                let new_total = sat_add_u32(old(self).total_cs() as int, d as int);
                if rgba@.len() != old(self).frame_bytes() || new_total > old(self).duration_limit_cs() {
                    !added && *final(self) == *old(self)
                } else if frames.len() > 0 && frames.last().0 == rgba@ {
                    &&& added
                    &&& final(self).cached_frames() == frames.update(
                        frames.len() - 1,
                        (rgba@, merged_delay(frames.last().1, d)),
                    )
                    &&& final(self).total_cs() == new_total
                    &&& final(self).cached_len() == old(self).cached_len()
                    &&& final(self).same_settings(*old(self))
                } else if sat_add_usize(old(self).cached_len() as int, rgba@.len() as int)
                    > old(self).cache_limit() {
                    !added && *final(self) == *old(self)
                } else {
                    &&& added
                    &&& final(self).cached_frames() == frames.push((rgba@, d))
                    &&& final(self).total_cs() == new_total
                    &&& final(self).cached_len() == old(self).cached_len() + rgba@.len()
                    &&& final(self).same_settings(*old(self))
                }
            }),
    {
        let expected = self.width as usize * self.height as usize * 4;
        if rgba.len() != expected {
            return false;
        }
        let delay_cs = duration_to_centiseconds(delay_ms);
        if self.duration_cs.saturating_add(delay_cs as u32) > self.max_duration_cs {
            return false;
        }
        let ghost old_frames = self.cached_frames();
        let n = self.frames.len();
        if n > 0 && bytes_equal(self.frames[n - 1].rgba.as_slice(), rgba) {
            let mut last = self.frames.pop().unwrap();
            let merged = last.delay_cs.saturating_add(delay_cs);
            last.delay_cs = if merged >= 1 { merged } else { 1 };
            self.frames.push(last);
            self.duration_cs = self.duration_cs.saturating_add(delay_cs as u32);
            proof {
                assert(self.cached_frames() =~= old_frames.update(
                    old_frames.len() - 1,
                    (rgba@, merged_delay(old_frames.last().1, delay_cs)),
                ));
                assert forall|i: int| 0 <= i < self.frames@.len() implies #[trigger] self.frames@[i].rgba@.len()
                    == self.width * self.height * 4 by {
                    if i < n - 1 {
                        assert(self.frames@[i] == old(self).frames@[i]);
                    }
                }
            }
            return true;
        }
        if self.cached_bytes.saturating_add(rgba.len()) > self.max_cache_bytes {
            return false;
        }
        let mut copy: Vec<u8> = Vec::new();
        crate::bytes::push_range(&mut copy, rgba, 0, rgba.len());
        assert(rgba@.subrange(0, rgba@.len() as int) =~= rgba@);
        self.frames.push(CachedFrame { rgba: copy, delay_cs });
        self.cached_bytes = self.cached_bytes + rgba.len();
        self.duration_cs = self.duration_cs.saturating_add(delay_cs as u32);
        proof {
            assert(self.cached_frames() =~= old_frames.push((rgba@, delay_cs)));
            assert forall|i: int| 0 <= i < self.frames@.len() implies #[trigger] self.frames@[i].rgba@.len()
                == self.width * self.height * 4 by {
                if i < n {
                    assert(self.frames@[i] == old(self).frames@[i]);
                }
            }
        }
        true
    }

    /// Size and limits are the same as in `other`.
    pub open spec fn same_settings(&self, other: Self) -> bool {
        &&& self.frame_width() == other.frame_width()
        &&& self.frame_height() == other.frame_height()
        &&& self.cache_limit() == other.cache_limit()
        &&& self.duration_limit_cs() == other.duration_limit_cs()
    }

    /// Extends the last frame by `delay_ms`. Returns false, changing nothing,
    /// when there is no frame yet or the duration limit would be exceeded.
    pub fn add_emptyframe(&mut self, delay_ms: u128) -> (added: bool)
        requires
            old(self).wf(),
        ensures
            final(self).wf(),
            ({
                let d = spec_centiseconds(delay_ms);
                let frames = old(self).cached_frames();
                let new_total = sat_add_u32(old(self).total_cs() as int, d as int);
                if frames.len() == 0 || new_total > old(self).duration_limit_cs() {
                    !added && *final(self) == *old(self)
                } else {
                    &&& added
                    &&& final(self).cached_frames() == frames.update(
                        frames.len() - 1,
                        (frames.last().0, merged_delay(frames.last().1, d)),
                    )
                    &&& final(self).total_cs() == new_total
                    &&& final(self).cached_len() == old(self).cached_len()
                    &&& final(self).same_settings(*old(self))
                }
            }),
    {
        let delay_cs = duration_to_centiseconds(delay_ms);
        if self.frames.len() == 0 || self.duration_cs.saturating_add(delay_cs as u32)
            > self.max_duration_cs {
            return false;
        }
        let ghost old_frames = self.cached_frames();
        let n = self.frames.len();
        let mut last = self.frames.pop().unwrap();
        let merged = last.delay_cs.saturating_add(delay_cs);
        last.delay_cs = if merged >= 1 { merged } else { 1 };
        self.frames.push(last);
        self.duration_cs = self.duration_cs.saturating_add(delay_cs as u32);
        proof {
            assert(self.cached_frames() =~= old_frames.update(
                old_frames.len() - 1,
                (old_frames.last().0, merged_delay(old_frames.last().1, delay_cs)),
            ));
            assert forall|i: int| 0 <= i < self.frames@.len() implies #[trigger] self.frames@[i].rgba@.len()
                == self.width * self.height * 4 by {
                if i < n - 1 {
                    assert(self.frames@[i] == old(self).frames@[i]);
                }
            }
        }
        true
    }

    pub fn frame_count(&self) -> (n: usize)
        ensures
            n == self.cached_frames().len(),
    {
        self.frames.len()
    }

    /// The recorded length in milliseconds.
    pub fn duration(&self) -> (ms: u64)
        ensures
            ms == self.total_cs() * 10,
    {
        self.duration_cs as u64 * 10
    }

    /// Encodes the cached frames as an endlessly looping GIF: the screen
    /// descriptor, the loop extension, each cached frame's blocks in order
    /// (quantised at `QUANTIZE_SPEED`, its delay at least 1), then the
    /// trailer byte.
    pub fn encode(&self) -> (r: Result<Vec<u8>, GifEncodeError>)
        requires
            self.wf(),
        ensures
            r is Ok,
            r matches Ok(bytes) ==> bytes@ == gif_file(self.frame_width(), self.frame_height(), self.cached_frames()),
    {
        let mut encoder = match gif_encoder_new(self.width, self.height) {
            Ok(e) => e,
            Err(e) => return Err(GifEncodeError::Encoding(e)),
        };
        match gif_set_repeat_infinite(&mut encoder) {
            Ok(()) => {},
            Err(e) => return Err(GifEncodeError::Encoding(e)),
        }
        let ghost head = gif_screen_header(self.width, self.height) + gif_loop_forever_ext();
        let ghost frames = self.cached_frames();
        let mut i: usize = 0;
        while i < self.frames.len()
            invariant
                self.wf(),
                frames == self.cached_frames(),
                frames.len() == self.frames@.len(),
                i <= self.frames@.len(),
                gif_written(encoder) == head + gif_frames_blocks(self.width, self.height, frames.take(i as int)),
            decreases self.frames@.len() - i,
        {
            let rgba = copy_bytes(&self.frames[i].rgba);
            let delay = if self.frames[i].delay_cs >= 1 { self.frames[i].delay_cs } else { 1 };
            assert(self.frames@[i as int].rgba@.len() == self.width * self.height * 4);
            assert(frames[i as int] == (self.frames@[i as int].rgba@, self.frames@[i as int].delay_cs));
            match gif_write_rgba_frame(&mut encoder, self.width, self.height, rgba, QUANTIZE_SPEED, delay) {
                Ok(()) => {},
                Err(e) => return Err(GifEncodeError::Encoding(e)),
            }
            proof {
                assert(frames.take(i + 1).drop_last() =~= frames.take(i as int));
                assert(frames.take(i + 1).last() == frames[i as int]);
            }
            i += 1;
        }
        assert(frames.take(i as int) =~= frames);
        match gif_finish(encoder) {
            Ok(bytes) => Ok(bytes),
            Err(e) => Err(GifEncodeError::Io(e)),
        }
    }
}

/// The frame blocks of two runs of frames are the blocks of each run, one
/// after the other.
pub proof fn lemma_frames_blocks_concat(width: u16, height: u16, a: Seq<(Seq<u8>, u16)>, b: Seq<(Seq<u8>, u16)>)
    ensures
        gif_frames_blocks(width, height, a + b) == gif_frames_blocks(width, height, a) + gif_frames_blocks(
            width,
            height,
            b,
        ),
    decreases b.len(),
{
    if b.len() == 0 {
        assert(a + b =~= a);
    } else {
        lemma_frames_blocks_concat(width, height, a, b.drop_last());
        assert((a + b).drop_last() =~= a + b.drop_last());
        assert((a + b).last() == b.last());
    }
}

/// In the encoded GIF, the `i`-th cached frame is written as its own pixels
/// with its own cached delay (at least 1 centisecond), between the blocks of
/// the frames before it and those after it.
pub proof fn lemma_file_writes_each_cached_delay(width: u16, height: u16, frames: Seq<(Seq<u8>, u16)>, i: int)
    requires
        0 <= i < frames.len(),
    ensures
        gif_frames_blocks(width, height, frames) == gif_frames_blocks(width, height, frames.take(i))
            + gif_frame_blocks(
            width,
            height,
            frames[i].0,
            QUANTIZE_SPEED,
            if frames[i].1 == 0 { 1u16 } else { frames[i].1 },
        ) + gif_frames_blocks(width, height, frames.skip(i + 1)),
{
    let one = seq![frames[i]];
    assert(frames =~= frames.take(i) + one + frames.skip(i + 1));
    lemma_frames_blocks_concat(width, height, frames.take(i) + one, frames.skip(i + 1));
    lemma_frames_blocks_concat(width, height, frames.take(i), one);
    assert(one.drop_last() =~= Seq::<(Seq<u8>, u16)>::empty());
    let blk = gif_frame_blocks(
        width,
        height,
        frames[i].0,
        QUANTIZE_SPEED,
        if frames[i].1 == 0 { 1u16 } else { frames[i].1 },
    );
    assert(one.last() == frames[i]);
    assert(gif_frames_blocks(width, height, one.drop_last()) == Seq::<u8>::empty());
    assert(Seq::<u8>::empty() + blk =~= blk);
    assert(gif_frames_blocks(width, height, one) == gif_frame_blocks(
        width,
        height,
        frames[i].0,
        QUANTIZE_SPEED,
        if frames[i].1 == 0 { 1u16 } else { frames[i].1 },
    ));
}

} // verus!
