//! Long-screenshot session helpers: start/append status codes and the removal
//! of black rows that screen capture sometimes leaves at the bottom of a frame.

use vstd::prelude::*;
use crate::capture_core::stitcher::{spec_frame_len, LongScreenshotStitcher};
use crate::platform::{div_toward_zero, spec_max, spec_min};
use crate::longshot::types::{crop_pixels, edges_fit, rgba_len_is, spec_crop_area, spec_valid_rgba, LongShotImage, LongShotRect};

verus! {

/// The tallest stitched output a session accepts by default.
pub const DEFAULT_LONG_SHOT_MAX_OUTPUT_HEIGHT: i32 = 16_000;

/// Why a session could not start.
#[derive(Clone, Copy, Debug, PartialEq, Eq, Structural)]
pub enum LongShotStartError {
    InvalidRegion,
    InvalidFrame,
    FrameWidthMismatch,
}

/// What happened to a frame handed to a session.
#[derive(Clone, Copy, Debug, PartialEq, Eq, Structural)]
pub enum LongShotAppendStatus {
    NotActive,
    EmptyFrame,
    WidthMismatch,
    TooTall,
    SameScrollAlreadyAppended,
    Appended,
    Duplicate,
    Rejected,
}

/// The integer limits of a session: the tallest output it builds and whether
/// it trims capture dropout from frames.
#[derive(Clone, Copy, Debug, PartialEq, Eq, Structural)]
pub struct LongShotSessionLimits {
    pub max_output_height: i32,
    pub trim_capture_dropout: bool,
}

impl Default for LongShotSessionLimits {
    fn default() -> (l: Self)
        ensures
            l == (LongShotSessionLimits { max_output_height: DEFAULT_LONG_SHOT_MAX_OUTPUT_HEIGHT, trim_capture_dropout: true }),
    {
        LongShotSessionLimits { max_output_height: DEFAULT_LONG_SHOT_MAX_OUTPUT_HEIGHT, trim_capture_dropout: true }
    }
}

/// The row limits of the overlap search that a session tunes to the height of
/// its region: the fewest rows worth appending and the range of overlaps tried.
#[derive(Clone, Copy, Debug, PartialEq, Eq, Structural)]
pub struct TunedRowLimits {
    pub min_append_rows: i32,
    pub min_overlap_rows: i32,
    pub max_overlap_rows: i32,
}

/// The row limits for a region `region_height` rows tall: at least 24 rows
/// (a twentieth of the region) appended, overlaps from two fifths of the
/// region (at least 80 rows, below the region height) up to 900 rows and no
/// more than the region less the rows appended.
pub open spec fn spec_tuned_row_limits(region_height: int) -> TunedRowLimits {
    let min_append = spec_max(div_toward_zero(region_height, 20), 24);
    let min_overlap = spec_min(region_height - 1, spec_max(div_toward_zero(region_height * 2, 5), 80));
    let max_overlap = spec_min(900, spec_max(region_height - min_append, 1));
    TunedRowLimits {
        min_append_rows: min_append as i32,
        min_overlap_rows: min_overlap as i32,
        max_overlap_rows: max_overlap as i32,
    }
}

/// The overlap search's row limits tuned to a region `region_height` rows tall.
pub fn tuned_row_limits(region_height: i32) -> (t: TunedRowLimits)
    requires
        -0x4000_0000 <= region_height < 0x4000_0000,
    ensures
        t == spec_tuned_row_limits(region_height as int),
{
    let twentieth = region_height / 20;
    let min_append = if twentieth >= 24 { twentieth } else { 24 };
    let two_fifths = region_height * 2 / 5;
    let floor = if two_fifths >= 80 { two_fifths } else { 80 };
    let min_overlap = if region_height - 1 <= floor { region_height - 1 } else { floor };
    let rest = region_height - min_append;
    let rest = if rest >= 1 { rest } else { 1 };
    let max_overlap = if rest <= 900 { rest } else { 900 };
    TunedRowLimits { min_append_rows: min_append, min_overlap_rows: min_overlap, max_overlap_rows: max_overlap }
}

/// What the overlap search decided for a frame: append it from row
/// `append_from` on, treat it as a duplicate, or reject it.
#[derive(Clone, Copy, Debug, PartialEq, Eq, Structural)]
pub enum StitchDecision {
    Append { append_from: i32 },
    Duplicate,
    Reject,
}

/// A long-screenshot session: the selected region, the stitched output, and
/// the scroll bookkeeping that keeps one scroll from being appended twice.
#[derive(Clone, Debug)]
pub struct LongShotSession {
    active: bool,
    source_region: LongShotRect,
    stitcher: LongScreenshotStitcher,
    limits: LongShotSessionLimits,
    scroll_seq: u64,
    last_appended_scroll_seq: u64,
}

impl Default for LongShotSession {
    fn default() -> (s: Self)
        ensures
            s.wf(),
            !s.spec_active(),
            s.spec_region() == (LongShotRect { x: 0, y: 0, w: 0, h: 0 }),
            s.spec_seq() == 0,
            s.spec_last_appended() == 0,
            s.spec_limits() == (LongShotSessionLimits { max_output_height: DEFAULT_LONG_SHOT_MAX_OUTPUT_HEIGHT, trim_capture_dropout: true }),
            s.spec_stitcher().output() == Seq::<u8>::empty(),
            s.spec_stitcher().spec_height() == 0,
            s.spec_stitcher().spec_width() == 0,
    {
        LongShotSession {
            active: false,
            source_region: LongShotRect::default(),
            stitcher: LongScreenshotStitcher::default(),
            limits: LongShotSessionLimits::default(),
            scroll_seq: 0,
            last_appended_scroll_seq: 0,
        }
    }
}

/// The status a frame gets before any stitching: `None` when it may go on to
/// the overlap search.
pub open spec fn spec_precheck(
    active: bool,
    region: LongShotRect,
    output_height: int,
    max_output_height: int,
    last_appended: u64,
    scroll_seq: u64,
    frame: LongShotImage,
) -> Option<LongShotAppendStatus> {
    if !active {
        Some(LongShotAppendStatus::NotActive)
    } else if !spec_valid_rgba(frame) || frame.height <= 0 {
        Some(LongShotAppendStatus::EmptyFrame)
    } else if frame.width != region.w {
        Some(LongShotAppendStatus::WidthMismatch)
    } else if !(output_height + frame.height < max_output_height) {
        Some(LongShotAppendStatus::TooTall)
    } else if scroll_seq != 0 && last_appended == scroll_seq {
        Some(LongShotAppendStatus::SameScrollAlreadyAppended)
    } else {
        None
    }
}

/// What `start` leaves behind for a first frame of `width` by `height` RGBA
/// bytes `pixels`: the error for an empty region, an invalid frame or a width
/// mismatch (with the session reset), else an active session whose output is
/// the frame, without its trailing capture dropout when the limits say so.
pub open spec fn start_outcome(
    region: LongShotRect,
    width: i32,
    height: i32,
    pixels: Seq<u8>,
    limits: LongShotSessionLimits,
    post: LongShotSession,
    r: Result<(), LongShotStartError>,
) -> bool {
    let bad_region = region.w <= 0 || region.h <= 0;
    let valid = rgba_len_is(width as int, height as int, pixels.len() as int) && height > 0;
    &&& post.wf()
    &&& bad_region ==> r == Err::<(), _>(LongShotStartError::InvalidRegion)
    &&& !bad_region && !valid ==> r == Err::<(), _>(LongShotStartError::InvalidFrame)
    &&& !bad_region && valid && width != region.w ==> r == Err::<(), _>(LongShotStartError::FrameWidthMismatch)
    &&& r is Err ==> !post.spec_active() && post.spec_stitcher().output() == Seq::<u8>::empty()
        && post.spec_stitcher().spec_height() == 0
    &&& r is Ok <==> (!bad_region && valid && width == region.w)
    &&& r is Ok ==> {
        let h = if limits.trim_capture_dropout {
            spec_trimmed_height(pixels, width as int, height as int)
        } else {
            height as int
        };
        &&& post.spec_active()
        &&& post.spec_region() == region
        &&& post.spec_limits() == limits
        &&& post.spec_seq() == 0
        &&& post.spec_last_appended() == 0
        &&& post.spec_stitcher().spec_height() == h
        &&& post.spec_stitcher().output() == pixels.take(region.w * h * 4)
    }
}

impl LongShotSession {
    pub closed spec fn spec_active(&self) -> bool {
        self.active
    }

    pub closed spec fn spec_region(&self) -> LongShotRect {
        self.source_region
    }

    pub closed spec fn spec_stitcher(&self) -> LongScreenshotStitcher {
        self.stitcher
    }

    pub closed spec fn spec_limits(&self) -> LongShotSessionLimits {
        self.limits
    }

    pub closed spec fn spec_seq(&self) -> u64 {
        self.scroll_seq
    }

    pub closed spec fn spec_last_appended(&self) -> u64 {
        self.last_appended_scroll_seq
    }

    /// The stitcher's buffers are consistent, and an active session stitches
    /// at the width of its region.
    pub open spec fn wf(&self) -> bool {
        &&& self.spec_stitcher().wf()
        &&& self.spec_active() ==> self.spec_stitcher().spec_width() == self.spec_region().w
            && self.spec_region().w > 0
    }

    /// The precheck status of `frame` for scroll `scroll_seq`.
    pub open spec fn precheck(&self, scroll_seq: u64, frame: LongShotImage) -> Option<LongShotAppendStatus> {
        spec_precheck(
            self.spec_active(),
            self.spec_region(),
            self.spec_stitcher().spec_height() as int,
            self.spec_limits().max_output_height as int,
            self.spec_last_appended(),
            scroll_seq,
            frame,
        )
    }

    /// Ends the session and drops its output.
    pub fn reset(&mut self)
        ensures
            final(self).wf(),
            !final(self).spec_active(),
            final(self).spec_region() == (LongShotRect { x: 0, y: 0, w: 0, h: 0 }),
            final(self).spec_seq() == 0,
            final(self).spec_last_appended() == 0,
            final(self).spec_limits() == old(self).spec_limits(),
            final(self).spec_stitcher().output() == Seq::<u8>::empty(),
            final(self).spec_stitcher().spec_height() == 0,
    {
        self.active = false;
        self.source_region = LongShotRect::default();
        self.scroll_seq = 0;
        self.last_appended_scroll_seq = 0;
        self.stitcher = LongScreenshotStitcher::default();
    }

    /// Starts a session on `source_region` with `first_frame` as the top of the
    /// output. Fails, leaving the session reset, when the region is empty, the
    /// frame is not a valid RGBA image or has another width than the region.
    pub fn start(
        &mut self,
        source_region: LongShotRect,
        first_frame: LongShotImage,
        limits: LongShotSessionLimits,
    ) -> (r: Result<(), LongShotStartError>)
        requires
            (limits.trim_capture_dropout && spec_valid_rgba(first_frame) && first_frame.width == source_region.w)
                ==> first_frame.width * 96 <= i32::MAX,
        ensures
            start_outcome(
                source_region,
                first_frame.width,
                first_frame.height,
                first_frame.pixels@,
                limits,
                *final(self),
                r,
            ),
    {
        if source_region.is_empty() {
            self.reset();
            return Err(LongShotStartError::InvalidRegion);
        }
        if !first_frame.is_valid_rgba() || first_frame.height <= 0 {
            self.reset();
            return Err(LongShotStartError::InvalidFrame);
        }
        if first_frame.width != source_region.w {
            self.reset();
            return Err(LongShotStartError::FrameWidthMismatch);
        }
        let mut first_frame = first_frame;
        let ghost untrimmed = first_frame;
        proof {
            lemma_valid_rgba_frame(untrimmed);
        }
        if limits.trim_capture_dropout {
            trim_image_trailing_capture_dropout(&mut first_frame);
            proof {
                lemma_trim_removes_only_dropout_rows(untrimmed.pixels@, untrimmed.width as int, untrimmed.height as int);
            }
        }
        if first_frame.height <= 0 {
            self.reset();
            return Err(LongShotStartError::InvalidFrame);
        }
        proof {
            let w = first_frame.width as int;
            let h = first_frame.height as int;
            assert(first_frame.pixels@.len() == w * h * 4) by {
                assert(w * h * 4 <= w * (untrimmed.height as int) * 4) by (nonlinear_arith)
                    requires
                        0 < h <= untrimmed.height,
                        w > 0,
                ;
            }
            assert(spec_frame_len(w, h) == w * h * 4);
            assert(w * h * 4 <= w * (untrimmed.height as int) * 4) by (nonlinear_arith)
                requires
                    0 < h <= untrimmed.height,
                    w > 0,
            ;
        }
        self.active = true;
        self.source_region = source_region;
        self.limits = limits;
        self.scroll_seq = 0;
        self.last_appended_scroll_seq = 0;
        self.stitcher = LongScreenshotStitcher::new(source_region.w);
        self.stitcher.start(first_frame.pixels.as_slice(), first_frame.height);
        proof {
            let w = first_frame.width as int;
            let h = first_frame.height as int;
            assert(first_frame.pixels@.take(w * h * 4) =~= first_frame.pixels@);
            if !limits.trim_capture_dropout {
                assert(untrimmed.pixels@.take(w * h * 4) =~= untrimmed.pixels@);
            } else {
                assert(first_frame.pixels@.take(w * h * 4) == untrimmed.pixels@.take(w * h * 4));
            }
        }
        Ok(())
    }

    /// Starts a session on `source_region` with the part of `full_capture`
    /// inside it as the first frame; `InvalidFrame`, with the session left as
    /// it was, when the capture is not a valid image or misses the region.
    pub fn start_from_full_capture(
        &mut self,
        source_region: LongShotRect,
        full_capture: &LongShotImage,
        limits: LongShotSessionLimits,
    ) -> (r: Result<(), LongShotStartError>)
        requires
            edges_fit(source_region),
            (limits.trim_capture_dropout && spec_crop_area(*full_capture, source_region) is Some)
                ==> spec_crop_area(*full_capture, source_region)->0.w * 96 <= i32::MAX,
        ensures
            match spec_crop_area(*full_capture, source_region) {
                None => r == Err::<(), _>(LongShotStartError::InvalidFrame) && *final(self) == *old(self),
                Some(area) => start_outcome(
                    source_region,
                    area.w,
                    area.h,
                    crop_pixels(full_capture.pixels@, full_capture.width as int, area),
                    limits,
                    *final(self),
                    r,
                ),
            },
    {
        match full_capture.crop(source_region) {
            None => Err(LongShotStartError::InvalidFrame),
            Some(first_frame) => self.start(source_region, first_frame, limits),
        }
    }

    pub fn is_active(&self) -> (b: bool)
        ensures
            b == self.spec_active(),
    {
        self.active
    }

    pub fn source_region(&self) -> (r: LongShotRect)
        ensures
            r == self.spec_region(),
    {
        self.source_region
    }

    /// The next scroll sequence number (saturating at `u64::MAX`).
    pub fn next_scroll_seq(&mut self) -> (s: u64)
        ensures
            s == if old(self).spec_seq() < u64::MAX { (old(self).spec_seq() + 1) as u64 } else { u64::MAX },
            final(self).spec_seq() == s,
            final(self).spec_active() == old(self).spec_active(),
            final(self).spec_region() == old(self).spec_region(),
            final(self).spec_stitcher() == old(self).spec_stitcher(),
            final(self).spec_limits() == old(self).spec_limits(),
            final(self).spec_last_appended() == old(self).spec_last_appended(),
    {
        self.scroll_seq = self.scroll_seq.saturating_add(1);
        self.scroll_seq
    }

    pub fn current_scroll_seq(&self) -> (s: u64)
        ensures
            s == self.spec_seq(),
    {
        self.scroll_seq
    }

    /// Whether a frame of `frame_height` rows can still be appended without
    /// the output reaching the height limit.
    pub fn can_accept_frame_height(&self, frame_height: i32) -> (b: bool)
        requires
            (self.spec_active() && frame_height > 0) ==> self.spec_stitcher().spec_height() + frame_height <= i32::MAX,
        ensures
            b == (self.spec_active() && frame_height > 0 && self.spec_stitcher().spec_height()
                + frame_height < self.spec_limits().max_output_height),
    {
        self.active && frame_height > 0 && self.stitcher.height() + frame_height
            < self.limits.max_output_height
    }

    /// Checks `frame` for scroll `scroll_seq` before the overlap search and
    /// trims its capture dropout when the session does so. `Err` carries the
    /// status the frame ends with; `Ok` says whether an acceptable (not only a
    /// reliable) match may be appended.
    pub fn begin_append(&self, scroll_seq: u64, frame: &mut LongShotImage) -> (r: Result<bool, LongShotAppendStatus>)
        requires
            (self.spec_active() && spec_valid_rgba(*old(frame)) && old(frame).width == self.spec_region().w)
                ==> self.spec_stitcher().spec_height() + old(frame).height <= i32::MAX,
            (self.spec_limits().trim_capture_dropout && self.precheck(scroll_seq, *old(frame)) is None)
                ==> old(frame).width * 96 <= i32::MAX,
        ensures
            match self.precheck(scroll_seq, *old(frame)) {
                Some(status) => r == Err::<bool, _>(status) && *final(frame) == *old(frame),
                None => r == Ok::<_, LongShotAppendStatus>(true) && final(frame).width == old(frame).width
                    && if self.spec_limits().trim_capture_dropout {
                    &&& final(frame).height == spec_trimmed_height(old(frame).pixels@, old(frame).width as int, old(frame).height as int)
                    &&& final(frame).pixels@ == old(frame).pixels@.take(old(frame).width * final(frame).height * 4)
                } else {
                    *final(frame) == *old(frame)
                },
            },
    {
        if !self.active {
            return Err(LongShotAppendStatus::NotActive);
        }
        if !frame.is_valid_rgba() || frame.height <= 0 {
            return Err(LongShotAppendStatus::EmptyFrame);
        }
        if frame.width != self.source_region.w {
            return Err(LongShotAppendStatus::WidthMismatch);
        }
        if !self.can_accept_frame_height(frame.height) {
            return Err(LongShotAppendStatus::TooTall);
        }
        if scroll_seq != 0 && self.last_appended_scroll_seq == scroll_seq {
            return Err(LongShotAppendStatus::SameScrollAlreadyAppended);
        }
        proof {
            lemma_valid_rgba_frame(*frame);
        }
        if self.limits.trim_capture_dropout {
            trim_image_trailing_capture_dropout(frame);
        }
        Ok(scroll_seq == 0 || self.last_appended_scroll_seq != scroll_seq)
    }

    /// Applies the overlap decision for a frame that passed `begin_append`
    /// and returns its status: an appended frame extends the output and marks
    /// its scroll as appended.
    pub fn finish_append(&mut self, scroll_seq: u64, frame: &LongShotImage, decision: StitchDecision) -> (status: LongShotAppendStatus)
        requires
            old(self).wf(),
            old(self).spec_active(),
            spec_valid_rgba(*frame),
            frame.height > 0,
            frame.width == old(self).spec_region().w,
            old(self).spec_stitcher().spec_height() + frame.height < old(self).spec_limits().max_output_height,
            spec_frame_len(frame.width as int, old(self).spec_stitcher().spec_height() + frame.height) <= usize::MAX,
            decision matches StitchDecision::Append { append_from } ==> 0 <= append_from < frame.height,
        ensures
            final(self).wf(),
            final(self).spec_active() == old(self).spec_active(),
            final(self).spec_region() == old(self).spec_region(),
            final(self).spec_limits() == old(self).spec_limits(),
            final(self).spec_seq() == old(self).spec_seq(),
            match decision {
                StitchDecision::Append { append_from } => {
                    let w = old(self).spec_region().w as int;
                    &&& status == LongShotAppendStatus::Appended
                    &&& final(self).spec_last_appended() == scroll_seq
                    &&& final(self).spec_stitcher().spec_height() == old(self).spec_stitcher().spec_height() + (frame.height - append_from)
                    &&& final(self).spec_stitcher().output() == old(self).spec_stitcher().output() + frame.pixels@.subrange(
                        spec_frame_len(w, append_from as int),
                        spec_frame_len(w, frame.height as int),
                    )
                },
                StitchDecision::Duplicate => status == LongShotAppendStatus::Duplicate && *final(self) == *old(self),
                StitchDecision::Reject => status == LongShotAppendStatus::Rejected && *final(self) == *old(self),
            },
    {
        match decision {
            StitchDecision::Append { append_from } => {
                proof {
                    lemma_valid_rgba_frame(*frame);
                    let w = frame.width as int;
                    let h0 = self.stitcher.spec_height() as int;
                    assert(spec_frame_len(w, h0 + (frame.height - append_from)) <= spec_frame_len(w, h0 + frame.height as int)) by (nonlinear_arith)
                        requires
                            w > 0,
                            h0 >= 0,
                            0 <= append_from,
                    ;
                    assert(spec_frame_len(w, frame.height as int) == frame.pixels@.len());
                }
                self.stitcher.commit_append(frame.pixels.as_slice(), frame.height, append_from);
                self.last_appended_scroll_seq = scroll_seq;
                LongShotAppendStatus::Appended
            },
            StitchDecision::Duplicate => LongShotAppendStatus::Duplicate,
            StitchDecision::Reject => LongShotAppendStatus::Rejected,
        }
    }

    /// The stitcher, for the overlap search.
    pub fn stitcher(&self) -> (s: &LongScreenshotStitcher)
        ensures
            *s == self.spec_stitcher(),
    {
        &self.stitcher
    }

    pub fn width(&self) -> (w: i32)
        ensures
            w == self.spec_stitcher().spec_width(),
    {
        self.stitcher.width()
    }

    pub fn height(&self) -> (h: i32)
        ensures
            h == self.spec_stitcher().spec_height(),
    {
        self.stitcher.height()
    }

    pub fn pixels(&self) -> (p: &[u8])
        ensures
            p@ == self.spec_stitcher().output(),
    {
        self.stitcher.pixels()
    }

    /// The output so far as an image, `None` while there is none.
    pub fn output_image(&self) -> (img: Option<LongShotImage>)
        ensures
            img is Some <==> crate::longshot::types::rgba_len_is(
                self.spec_stitcher().spec_width() as int,
                self.spec_stitcher().spec_height() as int,
                self.spec_stitcher().output().len() as int,
            ),
            img matches Some(i) ==> i.width == self.spec_stitcher().spec_width() && i.height
                == self.spec_stitcher().spec_height() && i.pixels@ == self.spec_stitcher().output(),
    {
        let src = self.stitcher.pixels();
        let mut copy: Vec<u8> = Vec::new();
        crate::bytes::push_range(&mut copy, src, 0, src.len());
        assert(src@.subrange(0, src@.len() as int) =~= src@);
        LongShotImage::from_rgba(self.stitcher.width(), self.stitcher.height(), copy)
    }
}

/// A valid RGBA image holds exactly `width * height * 4` bytes.
pub proof fn lemma_valid_rgba_frame(img: LongShotImage)
    requires
        spec_valid_rgba(img),
    ensures
        img.width > 0,
        img.height > 0,
        img.pixels@.len() == img.width * img.height * 4,
        img.width * img.height * 4 <= usize::MAX,
        is_rgba_frame(img.pixels@, img.width as int, img.height as int),
        spec_frame_len(img.width as int, img.height as int) == img.pixels@.len(),
{
}

/// A nonzero scroll that has been appended is never appended again: its
/// next frame stops before the overlap search.
pub proof fn lemma_scroll_appended_once(session: LongShotSession, scroll_seq: u64, frame: LongShotImage)
    requires
        scroll_seq != 0,
        session.spec_last_appended() == scroll_seq,
    ensures
        session.precheck(scroll_seq, frame) is Some,
{
}

/// A frame that passes the precheck keeps the output below the height limit
/// however much of it is appended.
pub proof fn lemma_append_stays_below_limit(session: LongShotSession, scroll_seq: u64, frame: LongShotImage, append_from: int)
    requires
        session.precheck(scroll_seq, frame) is None,
        0 <= append_from < frame.height,
    ensures
        session.spec_stitcher().spec_height() + (frame.height - append_from) < session.spec_limits().max_output_height,
{
}

/// Rec. 601 luma of an RGB triple, rounded down.
pub open spec fn luma_of(r: int, g: int, b: int) -> int {
    (r * 299 + g * 587 + b * 114) / 1000
}

/// Statistics of the first `n` pixels of the row starting at byte `row`:
/// (near-black count, dark count, coloured count, least luma, greatest luma),
/// with the luma extremes starting from 255 and 0.
pub open spec fn row_stats(p: Seq<u8>, row: int, n: nat) -> (int, int, int, int, int)
    decreases n,
{
    if n == 0 {
        (0, 0, 0, 255, 0)
    } else {
        let s = row_stats(p, row, (n - 1) as nat);
        let i = row + (n - 1) * 4;
        let r = p[i] as int;
        let g = p[i + 1] as int;
        let b = p[i + 2] as int;
        let l = luma_of(r, g, b);
        (
            s.0 + if r <= 8 && g <= 8 && b <= 8 { 1int } else { 0int },
            s.1 + if l <= 42 { 1int } else { 0int },
            s.2 + if r > 70 || g > 70 || b > 70 { 1int } else { 0int },
            spec_min(s.3, l),
            spec_max(s.4, l),
        )
    }
}

/// Row `y` of a `width`-wide RGBA buffer looks like a capture dropout: almost
/// entirely black, or uniformly dark, with hardly any coloured pixel.
pub open spec fn is_dropout_row(p: Seq<u8>, width: int, y: int) -> bool {
    let s = row_stats(p, y * width * 4, width as nat);
    let almost_black = s.0 >= width * 95 / 100 && s.2 <= spec_max(1, width / 200);
    let uniform_dark = s.1 >= width * 96 / 100 && s.4 - s.3 <= 18 && s.2 <= spec_max(
        1,
        width / 100,
    );
    almost_black || uniform_dark
}

/// How many of the first `k` rows, counted upward from row `k - 1`, are
/// consecutive dropout rows.
pub open spec fn dropout_run(p: Seq<u8>, width: int, k: nat) -> nat
    decreases k,
{
    if k == 0 {
        0
    } else if is_dropout_row(p, width, k - 1) {
        1 + dropout_run(p, width, (k - 1) as nat)
    } else {
        0
    }
}

/// The height left after trimming: the trailing dropout rows are cut when there
/// are at least 24 of them and at least a twelfth of the frame, and when at
/// least 33 rows would remain; otherwise nothing is cut.
pub open spec fn spec_trimmed_height(p: Seq<u8>, width: int, height: int) -> int {
    let d = dropout_run(p, width, height as nat) as int;
    if d >= 24 && d >= spec_max(1, height / 12) && d < height - 32 {
        height - d
    } else {
        height
    }
}

/// The buffer holds exactly a `width` by `height` RGBA image.
pub open spec fn is_rgba_frame(p: Seq<u8>, width: int, height: int) -> bool {
    width > 0 && height > 0 && p.len() == width * height * 4
}

fn row_is_dropout(pixels: &[u8], width: i32, y: i32, height: i32) -> (b: bool)
    requires
        is_rgba_frame(pixels@, width as int, height as int),
        width * 96 <= i32::MAX,
        0 <= y < height,
    ensures
        b == is_dropout_row(pixels@, width as int, y as int),
{
    let total = pixels.len();
    proof {
        assert(y * width * 4 + width * 4 <= width * height * 4) by (nonlinear_arith)
            requires
                0 <= y < height,
                width > 0,
        ;
        assert(0 <= y * width * 4) by (nonlinear_arith)
            requires
                0 <= y,
                width > 0,
        ;
    }
    let row = y as usize * width as usize * 4;
    let mut near_black: i32 = 0;
    let mut dark: i32 = 0;
    let mut colored: i32 = 0;
    let mut min_luma: i32 = 255;
    let mut max_luma: i32 = 0;
    let mut x: usize = 0;
    let n = width as usize;
    while x < n
        invariant
            n == width,
            x <= n,
            row == y * width * 4,
            row + width * 4 <= pixels@.len(),
            total == pixels@.len(),
            0 <= near_black <= x,
            0 <= dark <= x,
            0 <= colored <= x,
            0 <= min_luma <= 255,
            0 <= max_luma <= 255,
            (near_black as int, dark as int, colored as int, min_luma as int, max_luma as int)
                == row_stats(pixels@, row as int, x as nat),
        decreases n - x,
    {
        assert(row + x * 4 + 4 <= row + width * 4);
        let i = row + x * 4;
        let r = pixels[i] as i32;
        let g = pixels[i + 1] as i32;
        let b = pixels[i + 2] as i32;
        let luma = (r * 299 + g * 587 + b * 114) / 1000;
        assert(0 <= luma <= 255);
        if r <= 8 && g <= 8 && b <= 8 {
            near_black += 1;
        }
        if luma <= 42 {
            dark += 1;
        }
        if r > 70 || g > 70 || b > 70 {
            colored += 1;
        }
        min_luma = if min_luma <= luma { min_luma } else { luma };
        max_luma = if max_luma >= luma { max_luma } else { luma };
        x += 1;
    }
    let colored_black_limit = if width / 200 >= 1 { width / 200 } else { 1 };
    let colored_dark_limit = if width / 100 >= 1 { width / 100 } else { 1 };
    let almost_black = near_black >= width * 95 / 100 && colored <= colored_black_limit;
    let uniform_dark = dark >= width * 96 / 100 && (max_luma - min_luma) <= 18 && colored
        <= colored_dark_limit;
    almost_black || uniform_dark
}

/// Cuts the rows of black capture dropout from the bottom of an RGBA frame and
/// returns the height that remains. Buffers that do not hold exactly
/// `width * height * 4` bytes are left alone.
pub fn trim_trailing_capture_dropout(pixels: &mut Vec<u8>, width: i32, height: i32) -> (h: i32)
    requires
        is_rgba_frame(old(pixels)@, width as int, height as int) ==> width * 96 <= i32::MAX,
    ensures
        if is_rgba_frame(old(pixels)@, width as int, height as int) {
            &&& h == spec_trimmed_height(old(pixels)@, width as int, height as int)
            &&& final(pixels)@ == old(pixels)@.take(width * h * 4)
        } else {
            &&& h == height
            &&& final(pixels)@ == old(pixels)@
        },
{
    if width <= 0 || height <= 0 {
        return height;
    }
    let len = pixels.len();
    let area = (width as usize).checked_mul(height as usize);
    let expected = match area {
        Some(n) => n.checked_mul(4),
        None => None,
    };
    match expected {
        Some(n) => {
            if len != n {
                return height;
            }
        },
        None => {
            proof {
                if area is None {
                    assert(width * height * 4 > usize::MAX) by (nonlinear_arith)
                        requires
                            width * height > usize::MAX,
                    ;
                }
            }
            return height;
        },
    }
    let ghost p = pixels@;
    let mut dropout_rows: i32 = 0;
    let mut k: i32 = height;
    while k > 0 && row_is_dropout(pixels.as_slice(), width, k - 1, height)
        invariant
            pixels@ == p,
            is_rgba_frame(p, width as int, height as int),
            width * 96 <= i32::MAX,
            0 <= k <= height,
            dropout_rows == height - k,
            dropout_run(p, width as int, height as nat) == dropout_rows + dropout_run(
                p,
                width as int,
                k as nat,
            ),
        decreases k,
    {
        dropout_rows += 1;
        k -= 1;
    }
    let twelfth = if height / 12 >= 1 { height / 12 } else { 1 };
    let significant = dropout_rows >= 24 && dropout_rows >= twelfth;
    if !significant || dropout_rows >= height - 32 {
        assert(p.take(width * height * 4) =~= p);
        return height;
    }
    let trimmed = height - dropout_rows;
    proof {
        assert(width * trimmed * 4 <= width * height * 4) by (nonlinear_arith)
            requires
                width > 0,
                0 < trimmed <= height,
        ;
        assert(width as int * trimmed as int * 4 == width * trimmed * 4);
    }
    pixels.resize(width as usize * trimmed as usize * 4, 0);
    trimmed
}

/// Trims the dropout rows from `image` in place and returns its new height.
pub fn trim_image_trailing_capture_dropout(image: &mut LongShotImage) -> (h: i32)
    requires
        is_rgba_frame(old(image).pixels@, old(image).width as int, old(image).height as int) ==> old(image).width * 96
            <= i32::MAX,
    ensures
        final(image).width == old(image).width,
        final(image).height == h,
        if is_rgba_frame(old(image).pixels@, old(image).width as int, old(image).height as int) {
            &&& h == spec_trimmed_height(
                old(image).pixels@,
                old(image).width as int,
                old(image).height as int,
            )
            &&& final(image).pixels@ == old(image).pixels@.take(old(image).width * h * 4)
        } else {
            &&& h == old(image).height
            &&& final(image).pixels@ == old(image).pixels@
        },
{
    let height = trim_trailing_capture_dropout(&mut image.pixels, image.width, image.height);
    image.height = height;
    height
}

/// The statistics of a row only read that row's bytes.
proof fn lemma_row_stats_prefix(p: Seq<u8>, len: int, row: int, n: nat)
    requires
        0 <= row,
        row + n * 4 <= len <= p.len(),
    ensures
        row_stats(p.take(len), row, n) == row_stats(p, row, n),
    decreases n,
{
    if n > 0 {
        lemma_row_stats_prefix(p, len, row, (n - 1) as nat);
        let i = row + (n - 1) * 4;
        assert(p.take(len)[i] == p[i]);
        assert(p.take(len)[i + 1] == p[i + 1]);
        assert(p.take(len)[i + 2] == p[i + 2]);
    }
}

/// The dropout test of the first `k` rows only reads those rows.
proof fn lemma_dropout_run_prefix(p: Seq<u8>, width: int, len: int, k: nat)
    requires
        width > 0,
        k * width * 4 <= len <= p.len(),
    ensures
        dropout_run(p.take(len), width, k) == dropout_run(p, width, k),
    decreases k,
{
    if k > 0 {
        let y = k - 1;
        assert(y * width * 4 + width * 4 == k * width * 4) by (nonlinear_arith)
            requires
                y == k - 1,
        ;
        assert(0 <= y * width * 4) by (nonlinear_arith)
            requires
                0 <= y,
                width > 0,
        ;
        lemma_row_stats_prefix(p, len, y * width * 4, width as nat);
        assert((k - 1) * width * 4 <= k * width * 4) by (nonlinear_arith)
            requires
                width > 0,
                k >= 1,
        ;
        lemma_dropout_run_prefix(p, width, len, (k - 1) as nat);
    }
}

/// The rows a run counts are dropout rows, and the row just above a run that
/// stops early is not one.
proof fn lemma_dropout_run_shape(p: Seq<u8>, width: int, k: nat)
    ensures
        dropout_run(p, width, k) <= k,
        forall|y: int| k - dropout_run(p, width, k) <= y < k ==> is_dropout_row(p, width, y),
        dropout_run(p, width, k) < k ==> !is_dropout_row(
            p,
            width,
            k - dropout_run(p, width, k) - 1,
        ),
    decreases k,
{
    if k > 0 {
        lemma_dropout_run_shape(p, width, (k - 1) as nat);
    }
}

/// Trimming removes only dropout rows, never grows the frame, and keeps at
/// least 33 rows whenever it removes any.
pub proof fn lemma_trim_removes_only_dropout_rows(p: Seq<u8>, width: int, height: int)
    requires
        height > 0,
    ensures
        spec_trimmed_height(p, width, height) <= height,
        spec_trimmed_height(p, width, height) < height ==> spec_trimmed_height(p, width, height)
            >= 33,
        forall|y: int|
            spec_trimmed_height(p, width, height) <= y < height ==> is_dropout_row(p, width, y),
{
    lemma_dropout_run_shape(p, width, height as nat);
}

/// Trimming is idempotent: a trimmed frame has no dropout left to trim.
pub proof fn lemma_trim_idempotent(p: Seq<u8>, width: int, height: int)
    requires
        is_rgba_frame(p, width, height),
    ensures
        ({
            let t = spec_trimmed_height(p, width, height);
            spec_trimmed_height(p.take(width * t * 4), width, t) == t
        }),
{
    let t = spec_trimmed_height(p, width, height);
    let d = dropout_run(p, width, height as nat) as int;
    lemma_dropout_run_shape(p, width, height as nat);
    if t == height {
        assert(p.take(width * height * 4) =~= p);
    } else {
        assert(t == height - d);
        assert(width * t * 4 <= width * height * 4) by (nonlinear_arith)
            requires
                width > 0,
                0 < t <= height,
        ;
        assert(t * width * 4 == width * t * 4) by (nonlinear_arith);
        lemma_dropout_run_prefix(p, width, width * t * 4, t as nat);
        assert(!is_dropout_row(p, width, t - 1));
        assert(dropout_run(p, width, t as nat) == 0);
    }
}

/// A valid frame of the right width that would fit, handed in again for a
/// nonzero scroll that has already been appended, is refused as
/// `SameScrollAlreadyAppended` (and `begin_append` leaves the frame and the
/// session as they were).
pub proof fn lemma_repeat_scroll_refused(session: LongShotSession, scroll_seq: u64, frame: LongShotImage)
    requires
        session.spec_active(),
        spec_valid_rgba(frame),
        frame.width == session.spec_region().w,
        session.spec_stitcher().spec_height() + frame.height < session.spec_limits().max_output_height,
        scroll_seq != 0,
        session.spec_last_appended() == scroll_seq,
    ensures
        session.precheck(scroll_seq, frame) == Some(LongShotAppendStatus::SameScrollAlreadyAppended),
{
    lemma_valid_rgba_frame(frame);
}

} // verus!
