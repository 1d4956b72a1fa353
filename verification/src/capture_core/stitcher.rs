//! The integer core of long-screenshot stitching: the growing output buffer,
//! the last frame it was matched against, the overlaps a search tries, and the
//! sampled pixel-difference sums that the match scores are made of. Ranking
//! the overlaps by those scores is floating-point work and happens outside
//! this crate.

use vstd::prelude::*;
use crate::bytes::push_range;
use crate::longshot::session::StitchDecision;
use crate::platform::spec_min;
use crate::capture_core::sampling::{
    grid_diff, grid_diff_sums, lemma_sample_count_bound, sample_count, step_for,
};

verus! {

pub const BYTES_PER_PIXEL: usize = 4;

pub open spec fn nonneg(v: int) -> int {
    if v >= 0 { v } else { 0 }
}

/// The byte length of `height` rows of `width` RGBA pixels (negative sizes count as 0).
pub open spec fn spec_frame_len(width: int, height: int) -> int {
    nonneg(width) * nonneg(height) * 4
}

pub fn frame_len(width: i32, height: i32) -> (n: usize)
    requires
        spec_frame_len(width as int, height as int) <= usize::MAX,
    ensures
        n == spec_frame_len(width as int, height as int),
{
    let w = if width >= 0 { width as usize } else { 0 };
    let h = if height >= 0 { height as usize } else { 0 };
    assert(w * h <= w * h * 4) by (nonlinear_arith);
    w * h * BYTES_PER_PIXEL
}

/// The byte offset of row `y` in a `width`-wide RGBA buffer.
pub fn row_offset(width: i32, y: i32) -> (n: usize)
    requires
        spec_frame_len(width as int, y as int) <= usize::MAX,
    ensures
        n == spec_frame_len(width as int, y as int),
{
    frame_len(width, y)
}

/// The x-range that pixel comparison looks at: the rightmost columns, where
/// scroll bars live, are left out.
pub open spec fn compare_x_end(width: int) -> int {
    let a = width / 8;
    let b = if width / 24 >= 2 { width / 24 } else { 2 };
    let ignored = if a <= b { a } else { b };
    if width - ignored >= 1 { width - ignored } else { 1 }
}

/// The sampled difference of the overlap rows: the last `overlap` rows of
/// `previous` against the first `overlap` rows of `next`, or `None` when the
/// overlap is out of range.
pub open spec fn spec_pixel_overlap_sums(
    previous: Seq<u8>,
    width: int,
    previous_height: int,
    next: Seq<u8>,
    next_height: int,
    overlap: int,
) -> Option<(int, int)> {
    let start = previous_height - overlap;
    if width <= 0 || start < 0 || overlap <= 0 || overlap >= next_height {
        None
    } else {
        let x_step = step_for(width, 128);
        let x_end = compare_x_end(width);
        let y_step = step_for(overlap, 128);
        let ny = sample_count(overlap, y_step);
        Some(
            (
                grid_diff(previous, start, next, 0, width, x_step, x_end, y_step, ny),
                3 * (ny as int) * (sample_count(x_end, x_step) as int),
            ),
        )
    }
}

proof fn lemma_compare_x_end(width: int)
    requires
        width > 0,
    ensures
        0 < compare_x_end(width) <= width,
{
}

/// Sums the sampled RGB differences between the last `overlap_rows` rows of
/// `previous` and the first `overlap_rows` rows of `next`; returns the sum and
/// the number of channels sampled, or `None` when the overlap is out of range.
pub fn compare_pixel_overlap_sums(
    previous: &[u8],
    width: i32,
    previous_height: i32,
    next: &[u8],
    next_height: i32,
    overlap_rows: i32,
) -> (out: Option<(u64, u64)>)
    requires
        i32::MIN <= previous_height - overlap_rows <= i32::MAX,
        previous@.len() >= spec_frame_len(width as int, previous_height as int),
        next@.len() >= spec_frame_len(width as int, next_height as int),
    ensures
        match spec_pixel_overlap_sums(
            previous@,
            width as int,
            previous_height as int,
            next@,
            next_height as int,
            overlap_rows as int,
        ) {
            None => out is None,
            Some(s) => out matches Some((d, n)) && d == s.0 && n == s.1,
        },
{
    let start = previous_height - overlap_rows;
    if width <= 0 || start < 0 || overlap_rows <= 0 || overlap_rows >= next_height {
        return None;
    }
    let w = width as usize;
    let a = w / 8;
    let b = if w / 24 >= 2 { w / 24 } else { 2 };
    let ignored = if a <= b { a } else { b };
    let x_end = if w - ignored >= 1 { w - ignored } else { 1 };
    let x_step = if w / 128 >= 1 { w / 128 } else { 1 };
    let rows = overlap_rows as usize;
    let y_step = if rows / 128 >= 1 { rows / 128 } else { 1 };
    proof {
        lemma_compare_x_end(width as int);
        lemma_sample_count_bound(x_end as int, width as int, 128);
        lemma_sample_count_bound(rows as int, rows as int, 128);
        assert((start + rows) * w * 4 <= previous@.len()) by (nonlinear_arith)
            requires
                start + rows == previous_height,
                w == width,
                w > 0,
                previous@.len() >= w * previous_height * 4,
        ;
        assert((0 + rows) * w * 4 <= next@.len()) by (nonlinear_arith)
            requires
                rows < next_height,
                w > 0,
                next@.len() >= w * next_height * 4,
        ;
    }
    Some(grid_diff_sums(previous, start as usize, next, 0, w, x_step, x_end, y_step, rows))
}

/// The stitched output so far and the frame the next one is matched against.
#[derive(Clone, Debug)]
pub struct LongScreenshotStitcher {
    width: i32,
    height: i32,
    last_frame_height: i32,
    pixels: Vec<u8>,
    last_frame: Vec<u8>,
}

impl LongScreenshotStitcher {
    pub closed spec fn spec_width(&self) -> i32 {
        self.width
    }

    pub closed spec fn spec_height(&self) -> i32 {
        self.height
    }

    pub closed spec fn spec_last_frame_height(&self) -> i32 {
        self.last_frame_height
    }

    /// The stitched RGBA output.
    pub closed spec fn output(&self) -> Seq<u8> {
        self.pixels@
    }

    /// The last frame accepted, cut to its rows.
    pub closed spec fn previous(&self) -> Seq<u8> {
        self.last_frame@
    }

    /// The buffers hold exactly the rows their heights say.
    pub open spec fn wf(&self) -> bool {
        &&& self.spec_height() >= 0
        &&& self.spec_last_frame_height() >= 0
        &&& self.output().len() == spec_frame_len(self.spec_width() as int, self.spec_height() as int)
        &&& self.previous().len() == spec_frame_len(
            self.spec_width() as int,
            self.spec_last_frame_height() as int,
        )
    }

    pub fn new(width: i32) -> (s: Self)
        ensures
            s.wf(),
            s.spec_width() == width,
            s.spec_height() == 0,
            s.spec_last_frame_height() == 0,
            s.output() == Seq::<u8>::empty(),
            s.previous() == Seq::<u8>::empty(),
    {
        let s = LongScreenshotStitcher {
            width,
            height: 0,
            last_frame_height: 0,
            pixels: Vec::new(),
            last_frame: Vec::new(),
        };
        assert(spec_frame_len(width as int, 0) == 0) by (nonlinear_arith);
        s
    }

    /// Drops every frame and switches to `width`.
    pub fn reset(&mut self, width: i32)
        ensures
            final(self).wf(),
            final(self).spec_width() == width,
            final(self).spec_height() == 0,
            final(self).spec_last_frame_height() == 0,
            final(self).output() == Seq::<u8>::empty(),
            final(self).previous() == Seq::<u8>::empty(),
    {
        self.width = width;
        self.height = 0;
        self.last_frame_height = 0;
        self.pixels.clear();
        self.last_frame.clear();
        assert(spec_frame_len(width as int, 0) == 0) by (nonlinear_arith);
    }

    fn clear_frames(&mut self)
        ensures
            final(self).wf(),
            final(self).spec_width() == old(self).spec_width(),
            final(self).spec_height() == 0,
            final(self).spec_last_frame_height() == 0,
            final(self).output() == Seq::<u8>::empty(),
            final(self).previous() == Seq::<u8>::empty(),
    {
        self.height = 0;
        self.last_frame_height = 0;
        self.pixels.clear();
        self.last_frame.clear();
        assert(spec_frame_len(self.width as int, 0) == 0) by (nonlinear_arith);
    }

    /// Starts a new output from the first `frame_height` rows of `first_frame`;
    /// clears the output when the width or height is not positive or the frame
    /// is too short.
    pub fn start(&mut self, first_frame: &[u8], frame_height: i32)
        requires
            spec_frame_len(old(self).spec_width() as int, frame_height as int) <= usize::MAX,
        ensures
            final(self).wf(),
            final(self).spec_width() == old(self).spec_width(),
            ({
                let w = old(self).spec_width() as int;
                let expected = spec_frame_len(w, frame_height as int);
                if w <= 0 || frame_height <= 0 || first_frame@.len() < expected {
                    &&& final(self).spec_height() == 0
                    &&& final(self).spec_last_frame_height() == 0
                    &&& final(self).output() == Seq::<u8>::empty()
                    &&& final(self).previous() == Seq::<u8>::empty()
                } else {
                    &&& final(self).spec_height() == frame_height
                    &&& final(self).spec_last_frame_height() == frame_height
                    &&& final(self).output() == first_frame@.take(expected)
                    &&& final(self).previous() == first_frame@.take(expected)
                }
            }),
    {
        if self.width <= 0 || frame_height <= 0 {
            self.clear_frames();
            return;
        }
        let expected_size = frame_len(self.width, frame_height);
        if first_frame.len() < expected_size {
            self.clear_frames();
            return;
        }
        self.height = frame_height;
        let mut pixels: Vec<u8> = Vec::new();
        push_range(&mut pixels, first_frame, 0, expected_size);
        let mut last: Vec<u8> = Vec::new();
        push_range(&mut last, first_frame, 0, expected_size);
        self.pixels = pixels;
        self.last_frame_height = frame_height;
        self.last_frame = last;
        assert(first_frame@.subrange(0, expected_size as int) =~= first_frame@.take(expected_size as int));
    }

    /// Appends rows `append_from..frame_height` of `next_frame` to the output
    /// and makes the first `frame_height` rows of `next_frame` the frame the
    /// next one is matched against.
    pub fn commit_append(&mut self, next_frame: &[u8], frame_height: i32, append_from: i32)
        requires
            old(self).wf(),
            old(self).spec_width() > 0,
            0 <= append_from < frame_height,
            next_frame@.len() >= spec_frame_len(old(self).spec_width() as int, frame_height as int),
            old(self).spec_height() + (frame_height - append_from) <= i32::MAX,
            spec_frame_len(
                old(self).spec_width() as int,
                old(self).spec_height() + (frame_height - append_from),
            ) <= usize::MAX,
        ensures
            final(self).wf(),
            final(self).spec_width() == old(self).spec_width(),
            final(self).spec_height() == old(self).spec_height() + (frame_height - append_from),
            final(self).spec_last_frame_height() == frame_height,
            final(self).output() == old(self).output() + next_frame@.subrange(
                spec_frame_len(old(self).spec_width() as int, append_from as int),
                spec_frame_len(old(self).spec_width() as int, frame_height as int),
            ),
            final(self).previous() == next_frame@.take(
                spec_frame_len(old(self).spec_width() as int, frame_height as int),
            ),
    {
        let w = self.width;
        let next_len = next_frame.len();
        proof {
            assert(spec_frame_len(w as int, append_from as int) <= spec_frame_len(w as int, frame_height as int)) by (nonlinear_arith)
                requires
                    w > 0,
                    0 <= append_from < frame_height,
            ;
            assert(spec_frame_len(w as int, frame_height as int) <= next_frame@.len());
        }
        let expected_size = frame_len(w, frame_height);
        let append_offset = row_offset(w, append_from);
        push_range(&mut self.pixels, next_frame, append_offset, expected_size);
        self.height = self.height + (frame_height - append_from);
        let mut last: Vec<u8> = Vec::new();
        push_range(&mut last, next_frame, 0, expected_size);
        self.last_frame = last;
        self.last_frame_height = frame_height;
        proof {
            assert(next_frame@.subrange(0, expected_size as int) =~= next_frame@.take(expected_size as int));
            let h0 = old(self).spec_height() as int;
            assert(spec_frame_len(w as int, h0) + (spec_frame_len(w as int, frame_height as int)
                - spec_frame_len(w as int, append_from as int)) == spec_frame_len(
                w as int,
                h0 + (frame_height - append_from),
            )) by (nonlinear_arith)
                requires
                    w > 0,
                    h0 >= 0,
                    0 <= append_from < frame_height,
            ;
        }
    }

    /// Whether no output has been started.
    pub fn empty(&self) -> (b: bool)
        ensures
            b == (self.output().len() == 0),
    {
        self.pixels.len() == 0
    }

    pub fn width(&self) -> (w: i32)
        ensures
            w == self.spec_width(),
    {
        self.width
    }

    pub fn height(&self) -> (h: i32)
        ensures
            h == self.spec_height(),
    {
        self.height
    }

    pub fn last_frame_height(&self) -> (h: i32)
        ensures
            h == self.spec_last_frame_height(),
    {
        self.last_frame_height
    }

    pub fn pixels(&self) -> (p: &[u8])
        ensures
            p@ == self.output(),
    {
        self.pixels.as_slice()
    }

    pub fn last_frame(&self) -> (p: &[u8])
        ensures
            p@ == self.previous(),
    {
        self.last_frame.as_slice()
    }

    /// The sampled difference between the last frame and `next_frame` row by
    /// row, with the number of channels sampled; `None` when the heights
    /// differ or there is no last frame (no duplicate is then possible).
    pub fn compare_duplicate_sums(&self, next_frame: &[u8], frame_height: i32) -> (out: Option<(u64, u64)>)
        requires
            self.wf(),
            next_frame@.len() >= spec_frame_len(self.spec_width() as int, frame_height as int),
        ensures
            (self.spec_last_frame_height() != frame_height || self.previous().len() == 0) ==> out is None,
            (self.spec_last_frame_height() == frame_height && self.previous().len() != 0) ==> {
                let w = self.spec_width() as int;
                let x_step = step_for(w, 96);
                let y_step = step_for(frame_height as int, 96);
                let ny = sample_count(frame_height as int, y_step);
                &&& out matches Some((d, n))
                &&& d == grid_diff(self.previous(), 0, next_frame@, 0, w, x_step, w, y_step, ny)
                &&& n == 3 * ny * sample_count(w, x_step)
            },
    {
        if self.last_frame_height != frame_height || self.last_frame.len() == 0 {
            return None;
        }
        let w = self.width;
        proof {
            assert(w > 0 && frame_height > 0) by (nonlinear_arith)
                requires
                    spec_frame_len(w as int, frame_height as int) > 0,
            ;
        }
        let wu = w as usize;
        let rows = frame_height as usize;
        let x_step = if wu / 96 >= 1 { wu / 96 } else { 1 };
        let y_step = if rows / 96 >= 1 { rows / 96 } else { 1 };
        proof {
            lemma_sample_count_bound(wu as int, wu as int, 96);
            lemma_sample_count_bound(rows as int, rows as int, 96);
            assert((0 + rows) * wu * 4 == spec_frame_len(w as int, frame_height as int)) by (nonlinear_arith)
                requires
                    wu == w,
                    rows == frame_height,
                    w > 0,
                    frame_height > 0,
            ;
        }
        Some(grid_diff_sums(self.last_frame.as_slice(), 0, next_frame, 0, wu, x_step, wu, y_step, rows))
    }
}

impl Default for LongScreenshotStitcher {
    fn default() -> (s: Self)
        ensures
            s.wf(),
            s.spec_width() == 0,
            s.spec_height() == 0,
            s.output() == Seq::<u8>::empty(),
    {
        Self::new(0)
    }
}

/// Stitching keeps the output a copy of the scrolled content: when the output
/// holds the first `top + h` rows of a `w`-wide source, and the next frame is
/// the `h` rows starting `s` rows below the last frame, appending that frame
/// from row `h - s` (what `commit_append` adds) yields the first
/// `top + s + h` rows of the source.
pub proof fn lemma_append_continues_source(src: Seq<u8>, w: int, h: int, top: int, s: int)
    requires
        w > 0,
        0 < s <= h,
        top >= 0,
        spec_frame_len(w, top + s + h) <= src.len(),
    ensures
        ({
            let output = src.subrange(0, spec_frame_len(w, top + h));
            let next = src.subrange(spec_frame_len(w, top + s), spec_frame_len(w, top + s + h));
            output + next.subrange(spec_frame_len(w, h - s), spec_frame_len(w, h)) == src.subrange(
                0,
                spec_frame_len(w, top + s + h),
            )
        }),
{
    let a = spec_frame_len(w, top + h);
    let c = spec_frame_len(w, top + s);
    let e = spec_frame_len(w, top + s + h);
    let lo = spec_frame_len(w, h - s);
    let hi = spec_frame_len(w, h);
    assert(c + lo == a && c + hi == e && 0 <= lo <= hi && 0 <= c && c <= e && a <= e) by (nonlinear_arith)
        requires
            w > 0,
            0 < s <= h,
            top >= 0,
            a == w * (top + h) * 4,
            c == w * (top + s) * 4,
            e == w * (top + s + h) * 4,
            lo == w * (h - s) * 4,
            hi == w * h * 4,
    ;
    let next = src.subrange(c, e);
    assert(next.subrange(lo, hi) =~= src.subrange(a, e));
    assert(src.subrange(0, a) + src.subrange(a, e) =~= src.subrange(0, e));
}

/// The overlaps the search tries for a new frame: from `min` to `max` rows,
/// first every `coarse_step`-th one.
#[derive(Clone, Copy, Debug, PartialEq, Eq, Structural)]
pub struct OverlapSearch {
    pub min: i32,
    pub max: i32,
    pub coarse_step: i32,
}

/// The overlap range for the configured bounds and the two frame heights:
/// at most the last frame's height and one row less than the new frame's;
/// `None` when no positive range is left. Ranges of more than 96 overlaps
/// are first searched in steps of a 32nd of the range (at least 2).
pub open spec fn spec_overlap_search(
    min_overlap_rows: int,
    max_overlap_rows: int,
    last_frame_height: int,
    frame_height: int,
) -> Option<OverlapSearch> {
    let max = spec_min(max_overlap_rows, spec_min(last_frame_height, frame_height - 1));
    let min = spec_min(min_overlap_rows, max);
    let range = max - min + 1;
    let step = if range > 96 {
        if range / 32 >= 2 { range / 32 } else { 2 }
    } else {
        1
    };
    if max <= 0 || min <= 0 || min > max {
        None
    } else {
        Some(OverlapSearch { min: min as i32, max: max as i32, coarse_step: step as i32 })
    }
}

/// The overlap search for a frame of `frame_height` rows after one of
/// `last_frame_height` rows.
pub fn overlap_search(
    min_overlap_rows: i32,
    max_overlap_rows: i32,
    last_frame_height: i32,
    frame_height: i32,
) -> (out: Option<OverlapSearch>)
    requires
        frame_height > i32::MIN,
    ensures
        out == spec_overlap_search(
            min_overlap_rows as int,
            max_overlap_rows as int,
            last_frame_height as int,
            frame_height as int,
        ),
{
    let below = frame_height - 1;
    let inner = if last_frame_height <= below { last_frame_height } else { below };
    let max = if max_overlap_rows <= inner { max_overlap_rows } else { inner };
    let min = if min_overlap_rows <= max { min_overlap_rows } else { max };
    if max <= 0 || min <= 0 || min > max {
        return None;
    }
    let range = max - min + 1;
    let step = if range > 96 {
        if range / 32 >= 2 { range / 32 } else { 2 }
    } else {
        1
    };
    Some(OverlapSearch { min, max, coarse_step: step })
}

/// The overlaps of the coarse pass: `min`, `min + coarse_step`, ... up to
/// `max`.
pub fn coarse_overlaps(search: OverlapSearch) -> (v: Vec<i32>)
    requires
        0 < search.min <= search.max,
        search.coarse_step > 0,
    ensures
        v@.len() == sample_count(search.max - search.min + 1, search.coarse_step as int),
        forall|i: int| 0 <= i < v@.len() ==> #[trigger] v@[i] == search.min + i * search.coarse_step,
{
    let range = (search.max as i64) - (search.min as i64) + 1;
    let step = search.coarse_step as i64;
    let count = (range + step - 1) / step;
    let ghost n = sample_count(range as int, step as int);
    assert(count == n);
    let mut v: Vec<i32> = Vec::new();
    let mut i: i64 = 0;
    while i < count
        invariant
            0 < search.min <= search.max,
            range == search.max - search.min + 1,
            step == search.coarse_step,
            step > 0,
            count == n,
            n == sample_count(range as int, step as int),
            0 <= i <= count,
            v@.len() == i,
            forall|k: int| 0 <= k < v@.len() ==> #[trigger] v@[k] == search.min + k * search.coarse_step,
        decreases count - i,
    {
        proof {
            lemma_sample_count_step(range as int, step as int, i as int);
            assert(0 <= i * step) by (nonlinear_arith)
                requires
                    i >= 0,
                    step > 0,
            ;
        }
        let overlap = (search.min as i64 + i * step) as i32;
        v.push(overlap);
        i += 1;
    }
    v
}

/// The overlaps tried again around a coarse-pass `seed`: one coarse step to
/// either side, kept inside the search range.
pub fn refine_range(search: OverlapSearch, seed: i32) -> (r: (i32, i32))
    requires
        0 < search.min <= seed <= search.max,
        search.coarse_step > 0,
    ensures
        r.0 == if seed - search.coarse_step >= search.min { seed - search.coarse_step } else { search.min as int },
        r.1 == if seed + search.coarse_step <= search.max { seed + search.coarse_step } else { search.max as int },
{
    let step = search.coarse_step as i64;
    let low = seed as i64 - step;
    let high = seed as i64 + step;
    let start = if low >= search.min as i64 { low as i32 } else { search.min };
    let end = if high <= search.max as i64 { high as i32 } else { search.max };
    (start, end)
}

/// What a chosen overlap means for the frame: appended from row
/// `append_from` on, or a duplicate when fewer than `min_append_rows` rows
/// would be new.
pub fn append_decision(frame_height: i32, append_from: i32, min_append_rows: i32) -> (d: StitchDecision)
    requires
        i32::MIN <= frame_height - append_from <= i32::MAX,
    ensures
        d == if frame_height - append_from < min_append_rows {
            StitchDecision::Duplicate
        } else {
            StitchDecision::Append { append_from }
        },
{
    if frame_height - append_from < min_append_rows {
        StitchDecision::Duplicate
    } else {
        StitchDecision::Append { append_from }
    }
}

/// `n` samples taken every `step` from 0 reach below `end` exactly when
/// fewer than `sample_count(end, step)` have been taken.
proof fn lemma_sample_count_step(end: int, step: int, n: int)
    requires
        end > 0,
        step > 0,
        n >= 0,
    ensures
        n * step < end <==> n < sample_count(end, step),
{
    let c = sample_count(end, step) as int;
    assert(c == (end + step - 1) / step);
    assert(n * step < end <==> n < (end + step - 1) / step) by (nonlinear_arith)
        requires
            end > 0,
            step > 0,
            n >= 0,
    {
        let q = (end + step - 1) / step;
        let r = (end + step - 1) % step;
        assert(end + step - 1 == q * step + r);
        assert(0 <= r < step);
        if n < q {
            assert(n + 1 <= q);
            assert((n + 1) * step <= q * step);
        } else {
            assert(n * step >= q * step);
        }
    }
}


/// The overlap search exists exactly when the largest usable overlap (the
/// configured maximum, the last frame's height, one row less than the new
/// frame's) and the configured minimum are both positive; it then runs from
/// the configured minimum, lowered to that largest overlap if need be, up to
/// that largest overlap, in coarse steps of at least 1.
pub proof fn lemma_overlap_search_range(
    min_overlap_rows: int,
    max_overlap_rows: int,
    last_frame_height: int,
    frame_height: int,
)
    requires
        i32::MIN <= min_overlap_rows <= i32::MAX,
        i32::MIN <= max_overlap_rows <= i32::MAX,
        i32::MIN <= last_frame_height <= i32::MAX,
        i32::MIN < frame_height <= i32::MAX,
    ensures
        ({
            let cap = if max_overlap_rows <= last_frame_height && max_overlap_rows <= frame_height - 1 {
                max_overlap_rows
            } else if last_frame_height <= frame_height - 1 {
                last_frame_height
            } else {
                frame_height - 1
            };
            let out = spec_overlap_search(min_overlap_rows, max_overlap_rows, last_frame_height, frame_height);
            &&& (out is None <==> (cap <= 0 || min_overlap_rows <= 0))
            &&& out matches Some(o) ==> {
                &&& o.max == cap
                &&& o.min == (if min_overlap_rows <= cap { min_overlap_rows } else { cap })
                &&& 1 <= o.min <= o.max
                &&& o.coarse_step >= 1
            }
        }),
{
}

} // verus!
