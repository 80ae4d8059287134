//! Cutting a run of frames into chunks, choosing the frames that stand for one,
//! and keeping the number of chunks in work bounded.

use vstd::prelude::*;

use crate::digits::{decimal, push_decimal};
use crate::signals::FrameSignal;
use crate::text::{clipped, owned, truncate_context};

verus! {

/// What a chunk is shown as.
#[derive(Clone, Copy, Debug, PartialEq, Eq, Structural)]
pub enum SemanticMediaMode {
    Frames,
    Video,
    AudioVideo,
}

impl SemanticMediaMode {
    /// The name of a mode.
    pub open spec fn name(self) -> Seq<char> {
        match self {
            SemanticMediaMode::Frames => "frames"@,
            SemanticMediaMode::Video => "video"@,
            SemanticMediaMode::AudioVideo => "audio_video"@,
        }
    }

    /// The name of a mode.
    pub fn as_str(self) -> (r: &'static str)
        ensures
            r@ == self.name(),
    {
        match self {
            SemanticMediaMode::Frames => "frames",
            SemanticMediaMode::Video => "video",
            SemanticMediaMode::AudioVideo => "audio_video",
        }
    }
}

/// How finely a model looks at a clip, by a code that its provider gives a
/// meaning to.
#[derive(Clone, Copy, Debug, PartialEq, Eq, Structural)]
pub struct MediaResolution {
    pub code: u32,
}

/// How chunks are cut and shown.
#[derive(Clone, Copy, Debug, PartialEq, Eq, Structural)]
pub struct SemanticMediaConfig {
    pub mode: SemanticMediaMode,
    pub window_ms: u64,
    pub resolution: MediaResolution,
    pub persist_evidence: bool,
    /// Cut by time, not by the number of frames.
    pub timestamp_windows: bool,
}

/// The frames `start..end`.
#[derive(Clone, Copy, Debug, PartialEq, Eq, Structural)]
pub struct FrameRange {
    pub start: usize,
    pub end: usize,
}

/// Where the window ends that begins at some frame: behind the last of the
/// frames that follow without a break and come before `limit`.
pub open spec fn window_end(signals: Seq<FrameSignal>, limit: u64, i: int) -> int
    decreases signals.len() - i,
{
    if i < signals.len() && signals[i].pts_ms < limit {
        window_end(signals, limit, i + 1)
    } else {
        i
    }
}

/// The end of the time window that begins with one frame.
pub open spec fn window_limit(pts_ms: u64, window_ms: u64) -> u64 {
    if pts_ms + window_ms > u64::MAX {
        u64::MAX
    } else {
        (pts_ms + window_ms) as u64
    }
}

proof fn lemma_window_end(signals: Seq<FrameSignal>, limit: u64, i: int)
    requires
        0 <= i <= signals.len(),
    ensures
        i <= window_end(signals, limit, i) <= signals.len(),
    decreases signals.len() - i,
{
    if i < signals.len() && signals[i].pts_ms < limit {
        lemma_window_end(signals, limit, i + 1);
    }
}

/// Where the chunk ends that begins at some frame.
pub open spec fn chunk_end(
    signals: Seq<FrameSignal>,
    chunk_size: int,
    window_ms: u64,
    by_time: bool,
    start: int,
) -> int {
    if by_time {
        window_end(signals, window_limit(signals[start].pts_ms, window_ms), start + 1)
    } else if start + chunk_size < signals.len() {
        start + chunk_size
    } else {
        signals.len() as int
    }
}

/// The chunks from one frame on.
pub open spec fn ranges_from(
    signals: Seq<FrameSignal>,
    chunk_size: int,
    window_ms: u64,
    by_time: bool,
    start: int,
) -> Seq<(int, int)>
    decreases signals.len() - start,
{
    let end = chunk_end(signals, chunk_size, window_ms, by_time, start);
    if start < 0 || start >= signals.len() || end <= start || end > signals.len() {
        Seq::empty()
    } else {
        seq![(start, end)] + ranges_from(signals, chunk_size, window_ms, by_time, end)
    }
}

/// The bounds of some ranges.
pub open spec fn range_views(s: Seq<FrameRange>) -> Seq<(int, int)> {
    s.map_values(|r: FrameRange| (r.start as int, r.end as int))
}

proof fn lemma_chunk_end(
    signals: Seq<FrameSignal>,
    chunk_size: int,
    window_ms: u64,
    by_time: bool,
    start: int,
)
    requires
        0 <= start < signals.len(),
        by_time || chunk_size > 0,
    ensures
        start < chunk_end(signals, chunk_size, window_ms, by_time, start) <= signals.len(),
{
    if by_time {
        lemma_window_end(signals, window_limit(signals[start].pts_ms, window_ms), start + 1);
    }
}

/// Cuts frames into chunks: by time, a chunk takes all frames that come within
/// the window of its first; else each takes `chunk_size` frames, and the last
/// what is left.
pub fn chunk_ranges(
    signals: &Vec<FrameSignal>,
    chunk_size: usize,
    window_ms: u64,
    by_time: bool,
) -> (r: Vec<FrameRange>)
    requires
        by_time || chunk_size > 0,
    ensures
        range_views(r@) == ranges_from(signals@, chunk_size as int, window_ms, by_time, 0),
        forall|i: int|
            0 <= i < r@.len() ==> (#[trigger] r@[i]).start < r@[i].end <= signals@.len(),
{
    let n: usize = signals.len();
    let mut out: Vec<FrameRange> = Vec::new();
    let mut start: usize = 0;
    let ghost whole = ranges_from(signals@, chunk_size as int, window_ms, by_time, 0);
    assert(range_views(out@) + whole =~= whole);
    while start < n
        invariant
            n == signals@.len(),
            start <= n,
            by_time || chunk_size > 0,
            whole == ranges_from(signals@, chunk_size as int, window_ms, by_time, 0),
            range_views(out@) + ranges_from(
                signals@,
                chunk_size as int,
                window_ms,
                by_time,
                start as int,
            ) == whole,
            forall|i: int| 0 <= i < out@.len() ==> (#[trigger] out@[i]).start < out@[i].end <= n,
        decreases n - start,
    {
        proof {
            lemma_chunk_end(signals@, chunk_size as int, window_ms, by_time, start as int);
        }
        let end: usize = if by_time {
            let limit: u64 = signals[start].pts_ms.saturating_add(window_ms);
            let mut e: usize = start + 1;
            while e < n && signals[e].pts_ms < limit
                invariant
                    n == signals@.len(),
                    start < e <= n,
                    window_end(signals@, limit, start + 1) == window_end(signals@, limit, e as int),
                ensures
                    e == window_end(signals@, limit, start + 1),
                decreases n - e,
            {
                e += 1;
            }
            e
        } else if n - start > chunk_size {
            start + chunk_size
        } else {
            n
        };
        let ghost before = range_views(out@);
        let ghost rest = ranges_from(signals@, chunk_size as int, window_ms, by_time, end as int);
        out.push(FrameRange { start, end });
        assert(range_views(out@) =~= before.push((start as int, end as int)));
        assert(before + (seq![(start as int, end as int)] + rest) =~= before.push(
            (start as int, end as int),
        ) + rest);
        start = end;
    }
    assert(range_views(out@) + Seq::<(int, int)>::empty() =~= range_views(out@));
    out
}

/// The chunks take all frames from `start` on, each frame once and in order.
pub proof fn chunks_cover_the_frames(
    signals: Seq<FrameSignal>,
    chunk_size: int,
    window_ms: u64,
    by_time: bool,
    start: int,
)
    requires
        0 <= start <= signals.len(),
        by_time || chunk_size > 0,
    ensures
        ({
            let s = ranges_from(signals, chunk_size, window_ms, by_time, start);
            &&& (start < signals.len() ==> s.len() > 0 && s[0].0 == start && s.last().1
                == signals.len())
            &&& (forall|i: int| 0 <= i < s.len() ==> (#[trigger] s[i]).0 < s[i].1)
            &&& (forall|i: int| 0 < i < s.len() ==> (#[trigger] s[i]).0 == s[i - 1].1)
        }),
    decreases signals.len() - start,
{
    if start < signals.len() {
        lemma_chunk_end(signals, chunk_size, window_ms, by_time, start);
        let end = chunk_end(signals, chunk_size, window_ms, by_time, start);
        chunks_cover_the_frames(signals, chunk_size, window_ms, by_time, end);
        let rest = ranges_from(signals, chunk_size, window_ms, by_time, end);
        let s = seq![(start, end)] + rest;
        assert forall|i: int| 0 <= i < s.len() implies (#[trigger] s[i]).0 < s[i].1 by {
            if i > 0 {
                assert(s[i] == rest[i - 1]);
            }
        }
        assert forall|i: int| 0 < i < s.len() implies (#[trigger] s[i]).0 == s[i - 1].1 by {
            assert(s[i] == rest[i - 1]);
            if i > 1 {
                assert(s[i - 1] == rest[i - 2]);
            }
        }
        if rest.len() > 0 {
            assert(s.last() == rest.last());
        }
    }
}

// ---------------------------------------------------------------- preparation
/// The clip that shows a chunk.
#[derive(Clone, Copy, Debug, PartialEq, Eq, Structural)]
pub struct ClipSpec {
    pub source_start_ms: u64,
    pub duration_ms: u64,
    pub mode: SemanticMediaMode,
    pub resolution: MediaResolution,
    pub persist_evidence: bool,
    pub chunk_index: usize,
}

/// One chunk: its frames, its times, and the clip that shows it.
#[derive(Clone, Copy, Debug, PartialEq, Eq, Structural)]
pub struct ChunkPrep {
    pub frame_offset: usize,
    pub chunk_len: usize,
    pub pts_start_ms: u64,
    pub pts_end_ms: u64,
    pub clip_spec: Option<ClipSpec>,
}

/// How long the clip of a chunk is: a window, but not past the end of the
/// source, and never nothing.
pub open spec fn clip_duration(window_ms: u64, source_duration_ms: Option<u64>, start: u64) -> u64 {
    let d: int = match source_duration_ms {
        Some(total) => {
            let left = if total > start {
                total - start
            } else {
                0
            };
            if left < window_ms {
                left
            } else {
                window_ms as int
            }
        },
        None => window_ms as int,
    };
    if d < 1 {
        1
    } else {
        d as u64
    }
}

/// The chunk that the range at `index` makes; `None` where it begins past the
/// end of the source.
pub open spec fn prep_of(
    signals: Seq<FrameSignal>,
    range: (int, int),
    index: int,
    media: SemanticMediaConfig,
    source_duration_ms: Option<u64>,
    semantic_decode_enabled: bool,
) -> Option<ChunkPrep> {
    let start = signals[range.0].pts_ms;
    let shown = media.mode != SemanticMediaMode::Frames;
    if shown && source_duration_ms is Some && start >= source_duration_ms->0 {
        None
    } else {
        Some(
            ChunkPrep {
                frame_offset: range.0 as usize,
                chunk_len: (range.1 - range.0) as usize,
                pts_start_ms: start,
                pts_end_ms: signals[range.1 - 1].pts_ms,
                clip_spec: if shown && semantic_decode_enabled {
                    Some(
                        ClipSpec {
                            source_start_ms: start,
                            duration_ms: clip_duration(media.window_ms, source_duration_ms, start),
                            mode: media.mode,
                            resolution: media.resolution,
                            persist_evidence: media.persist_evidence,
                            chunk_index: index as usize,
                        },
                    )
                } else {
                    None
                },
            },
        )
    }
}

/// The chunks that the first `k` ranges make.
pub open spec fn preps_upto(
    signals: Seq<FrameSignal>,
    ranges: Seq<(int, int)>,
    k: int,
    media: SemanticMediaConfig,
    source_duration_ms: Option<u64>,
    semantic_decode_enabled: bool,
) -> Seq<ChunkPrep>
    decreases k,
{
    if k <= 0 {
        Seq::empty()
    } else {
        let head = preps_upto(
            signals,
            ranges,
            k - 1,
            media,
            source_duration_ms,
            semantic_decode_enabled,
        );
        match prep_of(
            signals,
            ranges[k - 1],
            k - 1,
            media,
            source_duration_ms,
            semantic_decode_enabled,
        ) {
            Some(p) => head.push(p),
            None => head,
        }
    }
}

/// Prepares the chunks of a run of frames. The length of the source is heeded
/// where chunks are shown as clips.
pub fn prepare_realtime_chunks(
    signals: &Vec<FrameSignal>,
    chunk_size: usize,
    media: SemanticMediaConfig,
    source_duration_ms: Option<u64>,
    semantic_decode_enabled: bool,
) -> (r: Vec<ChunkPrep>)
    requires
        chunk_size > 0 || (media.timestamp_windows && media.mode != SemanticMediaMode::Frames),
    ensures
        ({
            let by_time = media.timestamp_windows && media.mode != SemanticMediaMode::Frames;
            let ranges = ranges_from(signals@, chunk_size as int, media.window_ms, by_time, 0);
            r@ == preps_upto(
                signals@,
                ranges,
                ranges.len() as int,
                media,
                source_duration_ms,
                semantic_decode_enabled,
            )
        }),
{
    let shown = media.mode != SemanticMediaMode::Frames;
    let by_time = media.timestamp_windows && shown;
    let ranges = chunk_ranges(signals, chunk_size, media.window_ms, by_time);
    let ghost bounds = range_views(ranges@);
    let mut out: Vec<ChunkPrep> = Vec::new();
    let mut i: usize = 0;
    while i < ranges.len()
        invariant
            i <= ranges@.len(),
            bounds == range_views(ranges@),
            shown == (media.mode != SemanticMediaMode::Frames),
            forall|k: int|
                0 <= k < ranges@.len() ==> (#[trigger] ranges@[k]).start < ranges@[k].end
                    <= signals@.len(),
            out@ == preps_upto(
                signals@,
                bounds,
                i as int,
                media,
                source_duration_ms,
                semantic_decode_enabled,
            ),
        decreases ranges@.len() - i,
    {
        let range = ranges[i];
        assert(bounds[i as int] == (range.start as int, range.end as int));
        let pts_start_ms: u64 = signals[range.start].pts_ms;
        let past_end = match source_duration_ms {
            Some(total) => shown && pts_start_ms >= total,
            None => false,
        };
        if !past_end {
            let duration_ms: u64 = match source_duration_ms {
                Some(total) => {
                    let left: u64 = total.saturating_sub(pts_start_ms);
                    if left < media.window_ms {
                        left
                    } else {
                        media.window_ms
                    }
                },
                None => media.window_ms,
            };
            let duration_ms: u64 = if duration_ms < 1 {
                1
            } else {
                duration_ms
            };
            let clip_spec = if shown && semantic_decode_enabled {
                Some(
                    ClipSpec {
                        source_start_ms: pts_start_ms,
                        duration_ms,
                        mode: media.mode,
                        resolution: media.resolution,
                        persist_evidence: media.persist_evidence,
                        chunk_index: i,
                    },
                )
            } else {
                None
            };
            out.push(
                ChunkPrep {
                    frame_offset: range.start,
                    chunk_len: range.end - range.start,
                    pts_start_ms,
                    pts_end_ms: signals[range.end - 1].pts_ms,
                    clip_spec,
                },
            );
        }
        i += 1;
    }
    out
}

// ---------------------------------------------------------------- selection
/// Which of `len` frames stand for a chunk when `k` are wanted: all where there
/// are no more, the middle one where one is wanted, else the first, the last and
/// others evenly between.
pub open spec fn chosen(len: int, k: int) -> Seq<int> {
    if len == 0 {
        Seq::empty()
    } else if k >= len {
        Seq::new(len as nat, |i: int| i)
    } else if k == 1 {
        seq![len / 2]
    } else {
        Seq::new(k as nat, |i: int| i * (len - 1) / (k - 1))
    }
}

/// Indices as whole numbers.
pub open spec fn index_views(s: Seq<usize>) -> Seq<int> {
    s.map_values(|i: usize| i as int)
}

proof fn lemma_evenly_spaced(len: int, k: int, i: int)
    requires
        2 <= k < len,
        0 <= i < k,
    ensures
        0 <= i * (len - 1) / (k - 1) < len,
        i > 0 ==> (i - 1) * (len - 1) / (k - 1) < i * (len - 1) / (k - 1),
{
    let a = len - 1;
    let b = k - 1;
    assert(0 <= i * a <= b * a) by (nonlinear_arith)
        requires
            0 <= i <= b,
            a >= 0,
    ;
    assert(b * a / b == a) by {
        vstd::arithmetic::div_mod::lemma_div_multiples_vanish(a, b);
    }
    assert(i * a / b <= b * a / b) by {
        vstd::arithmetic::div_mod::lemma_div_is_ordered(i * a, b * a, b);
    }
    assert(0 <= i * a / b) by {
        vstd::arithmetic::div_mod::lemma_div_pos_is_pos(i * a, b);
    }
    if i > 0 {
        assert((i - 1) * a + b <= i * a) by (nonlinear_arith)
            requires
                a >= b,
        ;
        assert(((i - 1) * a + b) / b == (i - 1) * a / b + 1) by {
            vstd::arithmetic::div_mod::lemma_div_plus_one((i - 1) * a, b);
        }
        vstd::arithmetic::div_mod::lemma_div_is_ordered((i - 1) * a + b, i * a, b);
    }
}

proof fn lemma_gap(len: int, k: int, i: int)
    requires
        2 <= k < len,
        0 <= i < k - 1,
    ensures
        (len - 1) / (k - 1) <= (i + 1) * (len - 1) / (k - 1) - i * (len - 1) / (k - 1) <= (len - 1)
            / (k - 1) + 1,
{
    let a = len - 1;
    let b = k - 1;
    let q = a / b;
    let x = i * a / b;
    let y = (i + 1) * a / b;
    vstd::arithmetic::div_mod::lemma_fundamental_div_mod(a, b);
    vstd::arithmetic::div_mod::lemma_fundamental_div_mod(i * a, b);
    vstd::arithmetic::div_mod::lemma_fundamental_div_mod((i + 1) * a, b);
    assert((i + 1) * a == i * a + a) by (nonlinear_arith);
    let m = a % b;
    let n = (i * a) % b;
    let o = ((i + 1) * a) % b;
    assert(q <= y - x <= q + 1) by (nonlinear_arith)
        requires
            b > 0,
            a == b * q + m,
            0 <= m < b,
            0 <= n < b,
            0 <= o < b,
            b * y + o == b * x + n + a,
    ;
}

/// The frames that stand for a chunk span it: with two or more of them the first
/// is the first of the chunk and the last its last, the steps between them are
/// as even as whole numbers allow, and each stands at or just before its share
/// of the way. One alone stands in the middle, and where no more are there than
/// are wanted, all stand for the chunk.
pub proof fn chosen_frames_span_the_chunk(len: int, k: int)
    requires
        0 < len,
        0 <= k,
    ensures
        ({
            let picked = chosen(len, k);
            &&& picked.len() == (if k < len {
                k
            } else {
                len
            })
            &&& k >= len ==> forall|i: int| 0 <= i < len ==> #[trigger] picked[i] == i
            &&& k == 1 < len ==> 2 * picked[0] <= len < 2 * picked[0] + 2
            &&& 2 <= k < len ==> picked[0] == 0 && picked[k - 1] == len - 1
            &&& 2 <= k < len ==> forall|i: int, j: int|
                #![trigger picked[i], picked[j]]
                0 <= i < k - 1 && 0 <= j < k - 1 ==> picked[i + 1] - picked[i] <= picked[j + 1]
                    - picked[j] + 1
            &&& 2 <= k < len ==> forall|i: int|
                #![trigger picked[i]]
                0 <= i < k ==> (k - 1) * picked[i] <= i * (len - 1) < (k - 1) * (picked[i] + 1)
        }),
{
    if 2 <= k < len {
        let picked = chosen(len, k);
        assert(0 * (len - 1) / (k - 1) == 0) by {
            vstd::arithmetic::div_mod::lemma_div_basics(k - 1);
        }
        assert((k - 1) * (len - 1) / (k - 1) == len - 1) by {
            vstd::arithmetic::div_mod::lemma_div_multiples_vanish(len - 1, k - 1);
        }
        assert forall|i: int, j: int|
            #![trigger picked[i], picked[j]]
            0 <= i < k - 1 && 0 <= j < k - 1 implies picked[i + 1] - picked[i] <= picked[j + 1]
            - picked[j] + 1 by {
            lemma_gap(len, k, i);
            lemma_gap(len, k, j);
        }
        assert forall|i: int|
            #![trigger picked[i]]
            0 <= i < k implies (k - 1) * picked[i] <= i * (len - 1) < (k - 1) * (picked[i] + 1) by {
            let x = i * (len - 1);
            let b = k - 1;
            vstd::arithmetic::div_mod::lemma_fundamental_div_mod(x, b);
            assert(b * (x / b) <= x < b * (x / b + 1)) by (nonlinear_arith)
                requires
                    b > 0,
                    x == b * (x / b) + x % b,
                    0 <= x % b < b,
            ;
        }
    }
}

/// Which of `len` frames stand for a chunk when `per_chunk` are wanted.
pub fn select_semantic_images(len: usize, per_chunk: usize) -> (r: Vec<usize>)
    ensures
        index_views(r@) == chosen(len as int, per_chunk as int),
        forall|i: int| 0 <= i < r@.len() ==> #[trigger] r@[i] < len,
        r@.len() == (if per_chunk < len {
            per_chunk
        } else {
            len
        }),
        forall|i: int, j: int| 0 <= i < j < r@.len() ==> #[trigger] r@[i] < #[trigger] r@[j],
        per_chunk == 1 < len ==> 2 * r@[0] <= len < 2 * r@[0] + 2,
        2 <= per_chunk < len ==> r@[0] == 0 && r@[per_chunk - 1] == len - 1,
        2 <= per_chunk < len ==> forall|i: int, j: int|
            #![trigger r@[i], r@[j]]
            0 <= i < per_chunk - 1 && 0 <= j < per_chunk - 1 ==> r@[i + 1] - r@[i] <= r@[j + 1]
                - r@[j] + 1,
        2 <= per_chunk < len ==> forall|i: int|
            #![trigger r@[i]]
            0 <= i < per_chunk ==> (per_chunk - 1) * r@[i] <= i * (len - 1) < (per_chunk - 1) * (r@[i]
                + 1),
{
    let r = pick_evenly(len, per_chunk);
    proof {
        let picked = chosen(len as int, per_chunk as int);
        assert forall|i: int| 0 <= i < r@.len() implies picked[i] == #[trigger] r@[i] by {
            assert(index_views(r@)[i] == r@[i]);
        }
        assert forall|i: int, j: int| 0 <= i < j < r@.len() implies #[trigger] r@[i]
            < #[trigger] r@[j] by {
            chosen_frames_are_distinct(len as int, per_chunk as int, i, j);
        }
        if len > 0 {
            chosen_frames_span_the_chunk(len as int, per_chunk as int);
        }
        if 2 <= per_chunk < len {
            assert forall|i: int, j: int|
                #![trigger r@[i], r@[j]]
                0 <= i < per_chunk - 1 && 0 <= j < per_chunk - 1 implies r@[i + 1] - r@[i] <= r@[j
                + 1] - r@[j] + 1 by {
                assert(picked[i] == r@[i] && picked[j] == r@[j]);
                assert(picked[i + 1] == r@[i + 1] && picked[j + 1] == r@[j + 1]);
            }
            assert forall|i: int|
                #![trigger r@[i]]
                0 <= i < per_chunk implies (per_chunk - 1) * r@[i] <= i * (len - 1) < (per_chunk - 1)
                * (r@[i] + 1) by {
                assert(picked[i] == r@[i]);
            }
        }
    }
    r
}

fn pick_evenly(len: usize, per_chunk: usize) -> (r: Vec<usize>)
    ensures
        index_views(r@) == chosen(len as int, per_chunk as int),
        forall|i: int| 0 <= i < r@.len() ==> #[trigger] r@[i] < len,
{
    let mut out: Vec<usize> = Vec::new();
    if len == 0 {
        assert(index_views(out@) =~= Seq::empty());
        return out;
    }
    if per_chunk >= len {
        let mut i: usize = 0;
        while i < len
            invariant
                i <= len,
                out@.len() == i,
                forall|j: int| 0 <= j < i ==> #[trigger] out@[j] == j,
            decreases len - i,
        {
            out.push(i);
            i += 1;
        }
        assert(index_views(out@) =~= chosen(len as int, per_chunk as int));
        return out;
    }
    if per_chunk == 1 {
        out.push(len / 2);
        assert(index_views(out@) =~= seq![len as int / 2]);
        return out;
    }
    if per_chunk == 0 {
        assert(index_views(out@) =~= chosen(len as int, 0));
        return out;
    }
    let mut i: usize = 0;
    while i < per_chunk
        invariant
            2 <= per_chunk < len,
            i <= per_chunk,
            out@.len() == i,
            forall|j: int|
                0 <= j < i ==> #[trigger] out@[j] == j * (len - 1) / (per_chunk - 1) && out@[j]
                    < len,
        decreases per_chunk - i,
    {
        proof {
            lemma_evenly_spaced(len as int, per_chunk as int, i as int);
            assert(i * (len - 1) <= 0xffff_ffff_ffff_ffff * 0xffff_ffff_ffff_ffff) by (nonlinear_arith)
                requires
                    0 <= i <= 0xffff_ffff_ffff_ffff,
                    0 <= len - 1 <= 0xffff_ffff_ffff_ffff,
            ;
            assert(0 <= i * (len - 1)) by (nonlinear_arith)
                requires
                    0 <= i,
                    0 <= len - 1,
            ;
        }
        let idx: usize = (i as u128 * (len - 1) as u128 / (per_chunk - 1) as u128) as usize;
        out.push(idx);
        i += 1;
    }
    assert(index_views(out@) =~= chosen(len as int, per_chunk as int));
    out
}

/// The frames that stand for a chunk come in order, each once, and are as many
/// as are wanted where there are so many.
pub proof fn chosen_frames_are_distinct(len: int, k: int, i: int, j: int)
    requires
        0 <= len,
        0 <= k,
        0 <= i < j < chosen(len, k).len(),
    ensures
        0 <= chosen(len, k)[i] < chosen(len, k)[j] < len,
        chosen(len, k).len() == if k < len {
            k
        } else {
            len
        },
    decreases j,
{
    if k < len && k >= 2 {
        lemma_evenly_spaced(len, k, j);
        lemma_evenly_spaced(len, k, i);
        if i < j - 1 {
            chosen_frames_are_distinct(len, k, i, j - 1);
        }
    }
}

/// The position of the last frame of some index, among the first `k`.
pub open spec fn last_position(indices: Seq<u64>, index: int, k: int) -> Option<int>
    decreases k,
{
    if k <= 0 {
        None
    } else if indices[k - 1] == index {
        Some(k - 1)
    } else {
        last_position(indices, index, k - 1)
    }
}

/// The positions of the frames that belong to a chunk, in the order of their
/// indices; of two with the same index the later one counts.
pub open spec fn positions_within(indices: Seq<u64>, start: int, end: int) -> Seq<int>
    decreases end - start,
{
    if end <= start {
        Seq::empty()
    } else {
        let head = positions_within(indices, start, end - 1);
        match last_position(indices, end - 1, indices.len() as int) {
            Some(p) => head.push(p),
            None => head,
        }
    }
}

/// The positions of the decoded frames that belong to a chunk.
pub fn chunk_frame_positions(indices: &Vec<u64>, start: usize, end: usize) -> (r: Vec<usize>)
    requires
        start <= end,
    ensures
        index_views(r@) == positions_within(indices@, start as int, end as int),
        forall|i: int| 0 <= i < r@.len() ==> #[trigger] r@[i] < indices@.len(),
{
    let mut out: Vec<usize> = Vec::new();
    let mut index: usize = start;
    assert(index_views(out@) =~= Seq::empty());
    while index < end
        invariant
            start <= index <= end,
            index_views(out@) == positions_within(indices@, start as int, index as int),
            forall|i: int| 0 <= i < out@.len() ==> #[trigger] out@[i] < indices@.len(),
        decreases end - index,
    {
        let mut k: usize = indices.len();
        while k > 0 && indices[k - 1] != index as u64
            invariant
                k <= indices@.len(),
                last_position(indices@, index as int, indices@.len() as int) == last_position(
                    indices@,
                    index as int,
                    k as int,
                ),
            ensures
                k == 0 || indices@[k - 1] == index,
            decreases k,
        {
            k -= 1;
        }
        if k > 0 {
            let ghost before = index_views(out@);
            out.push(k - 1);
            assert(index_views(out@) =~= before.push(k - 1));
        }
        index += 1;
    }
    out
}

// ---------------------------------------------------------------- chain
/// What is told of one chunk to the next: what was seen, and until when.
#[derive(Debug)]
pub struct ChainState {
    pub last_description: String,
    pub last_pts_ms: u64,
}

/// What is told of one chunk to the next.
pub ghost struct ChainView {
    pub last_description: Seq<char>,
    pub last_pts_ms: u64,
}

impl View for ChainState {
    type V = ChainView;

    open spec fn view(&self) -> ChainView {
        ChainView { last_description: self.last_description@, last_pts_ms: self.last_pts_ms }
    }
}

/// The prompt of a chunk: with what the one before showed, where anything is
/// known of it.
pub open spec fn chain_prompt_of(chain: ChainView, prompt: Seq<char>) -> Seq<char> {
    if chain.last_description.len() == 0 {
        prompt
    } else {
        prompt + "\n[previous_state ("@ + decimal(chain.last_pts_ms as nat) + "ms): "@ + clipped(
            chain.last_description,
            200,
        ) + "]"@
    }
}

/// What the next chunk is told: the raw answer, where there is one and it is
/// longer than four bytes; else the description, where there is one; else what
/// was told before.
pub open spec fn chain_after(
    chain: ChainView,
    raw_output: Option<Seq<char>>,
    description: Option<Seq<char>>,
    pts_end_ms: u64,
) -> ChainView {
    match raw_output {
        Some(s) => if vstd::utf8::encode_utf8(s).len() > 4 {
            ChainView { last_description: clipped(s, 200), last_pts_ms: pts_end_ms }
        } else {
            chain
        },
        None => match description {
            Some(d) => ChainView { last_description: clipped(d, 200), last_pts_ms: pts_end_ms },
            None => chain,
        },
    }
}

impl ChainState {
    /// Nothing known yet.
    pub fn new() -> (r: ChainState)
        ensures
            r@ == (ChainView { last_description: Seq::empty(), last_pts_ms: 0 }),
    {
        ChainState { last_description: String::new(), last_pts_ms: 0 }
    }

    /// The prompt of the next chunk.
    pub fn prompt(&self, semantic_prompt: &str) -> (r: String)
        ensures
            r@ == chain_prompt_of(self@, semantic_prompt@),
    {
        let mut out = owned(semantic_prompt);
        if !self.last_description.as_str().is_empty() {
            out.push_str("\n[previous_state (");
            push_decimal(&mut out, self.last_pts_ms);
            out.push_str("ms): ");
            out.push_str(truncate_context(self.last_description.as_str(), 200).as_str());
            out.push_str("]");
        }
        out
    }

    /// Takes in what a chunk showed.
    pub fn observe(
        &mut self,
        raw_output: Option<&str>,
        description: Option<&str>,
        pts_end_ms: u64,
    )
        ensures
            final(self)@ == chain_after(
                old(self)@,
                crate::text::opt_str(raw_output),
                crate::text::opt_str(description),
                pts_end_ms,
            ),
    {
        match raw_output {
            Some(s) => {
                if s.as_bytes().len() > 4 {
                    self.last_description = truncate_context(s, 200);
                    self.last_pts_ms = pts_end_ms;
                }
            },
            None => match description {
                Some(d) => {
                    self.last_description = truncate_context(d, 200);
                    self.last_pts_ms = pts_end_ms;
                },
                None => {},
            },
        }
    }
}

// ---------------------------------------------------------------- dispatch
/// Items handed out in order, with a bound on how many are in work at once.
#[derive(Debug)]
pub struct Dispatch {
    total: usize,
    limit: usize,
    next: usize,
    running: usize,
    done: Vec<bool>,
}

/// What a dispatch is: how many items there are and may be in work, how many
/// were handed out, and which came back.
pub ghost struct DispatchView {
    pub total: int,
    pub limit: int,
    pub next: int,
    pub running: int,
    pub done: Seq<bool>,
}

/// How many of the first `k` items came back.
pub open spec fn done_count(done: Seq<bool>, k: int) -> int
    decreases k,
{
    if k <= 0 {
        0
    } else {
        done_count(done, k - 1) + if done[k - 1] {
            1int
        } else {
            0
        }
    }
}

impl DispatchView {
    /// The bound is kept, only what was handed out came back, and what is in
    /// work is what was handed out and did not come back.
    pub open spec fn valid(self) -> bool {
        &&& self.limit >= 1
        &&& 0 <= self.next <= self.total
        &&& self.done.len() == self.total
        &&& self.running <= self.limit
        &&& self.running == self.next - done_count(self.done, self.next)
        &&& forall|i: int| self.next <= i < self.total ==> !#[trigger] self.done[i]
    }
}

impl View for Dispatch {
    type V = DispatchView;

    closed spec fn view(&self) -> DispatchView {
        DispatchView {
            total: self.total as int,
            limit: self.limit as int,
            next: self.next as int,
            running: self.running as int,
            done: self.done@,
        }
    }
}

/// Of the first `k` items no more came back than there are, and where as many
/// did, each of them did.
pub proof fn lemma_done_bounds(done: Seq<bool>, k: int)
    requires
        0 <= k <= done.len(),
    ensures
        0 <= done_count(done, k) <= k,
        done_count(done, k) == k ==> forall|i: int| 0 <= i < k ==> #[trigger] done[i],
    decreases k,
{
    if k > 0 {
        lemma_done_bounds(done, k - 1);
    }
}

proof fn lemma_done_update(done: Seq<bool>, i: int, k: int)
    requires
        0 <= i < done.len(),
        0 <= k <= done.len(),
        !done[i],
    ensures
        done_count(done.update(i, true), k) == done_count(done, k) + if i < k {
            1int
        } else {
            0
        },
    decreases k,
{
    if k > 0 {
        lemma_done_update(done, i, k - 1);
    }
}

impl Dispatch {
    /// The bound is kept, and the bookkeeping is right.
    pub open spec fn wf(&self) -> bool {
        self@.valid()
    }

    /// `total` items, of which at most `concurrency`, and at least one, may be
    /// in work at once.
    pub fn new(total: usize, concurrency: usize) -> (r: Dispatch)
        ensures
            r.wf(),
            r@.total == total,
            r@.limit == if concurrency < 1 {
                1
            } else {
                concurrency as int
            },
            r@.next == 0,
            r@.running == 0,
    {
        let mut done: Vec<bool> = Vec::new();
        let mut i: usize = 0;
        while i < total
            invariant
                i <= total,
                done@.len() == i,
                forall|k: int| 0 <= k < i ==> !#[trigger] done@[k],
            decreases total - i,
        {
            done.push(false);
            i += 1;
        }
        let limit: usize = if concurrency < 1 {
            1
        } else {
            concurrency
        };
        Dispatch { total, limit, next: 0, running: 0, done }
    }

    /// The next item to take up, where there is one and the bound allows it.
    pub fn start(&mut self) -> (r: Option<usize>)
        requires
            old(self).wf(),
        ensures
            final(self).wf(),
            match r {
                Some(i) => i == old(self)@.next && i < old(self)@.total && old(self)@.running < old(
                    self,
                )@.limit && final(self)@ == (DispatchView {
                    next: old(self)@.next + 1,
                    running: old(self)@.running + 1,
                    ..old(self)@
                }),
                None => final(self)@ == old(self)@ && (old(self)@.next == old(self)@.total || old(
                    self,
                )@.running == old(self)@.limit),
            },
    {
        proof {
            lemma_done_bounds(self.done@, self.next as int);
        }
        if self.next < self.total && self.running < self.limit {
            let i: usize = self.next;
            self.next = self.next + 1;
            self.running = self.running + 1;
            assert(done_count(self.done@, self.next as int) == done_count(self.done@, i as int));
            Some(i)
        } else {
            None
        }
    }

    /// Takes note that an item came back. An item that is not in work is
    /// passed over.
    pub fn finish(&mut self, item: usize) -> (r: bool)
        requires
            old(self).wf(),
        ensures
            final(self).wf(),
            r == (item < old(self)@.next && !old(self)@.done[item as int]),
            r ==> final(self)@ == (DispatchView {
                running: old(self)@.running - 1,
                done: old(self)@.done.update(item as int, true),
                ..old(self)@
            }),
            !r ==> final(self)@ == old(self)@,
    {
        if item < self.next && !self.done[item] {
            proof {
                lemma_done_update(self.done@, item as int, self.next as int);
                lemma_done_bounds(self.done@.update(item as int, true), self.next as int);
            }
            self.done.set(item, true);
            self.running = self.running - 1;
            true
        } else {
            false
        }
    }

    /// Whether nothing is in work.
    pub fn is_idle(&self) -> (r: bool)
        requires
            self.wf(),
        ensures
            r == (self@.running == 0),
    {
        self.running == 0
    }
}

/// At no time are more items in work than the bound allows.
pub proof fn work_is_bounded(d: DispatchView)
    requires
        d.valid(),
    ensures
        0 <= d.running <= d.limit,
{
    lemma_done_bounds(d.done, d.next);
}

/// When nothing is in work and nothing can be taken up, every item came back.
pub proof fn all_work_gets_done(d: DispatchView)
    requires
        d.valid(),
        d.running == 0,
        d.next == d.total || d.running == d.limit,
    ensures
        forall|i: int| 0 <= i < d.total ==> #[trigger] d.done[i],
{
    lemma_done_bounds(d.done, d.next);
}

/// Chunks that are not cut by time have all the same number of frames, but for
/// the last, which has no more.
pub proof fn chunks_have_their_size(
    signals: Seq<FrameSignal>,
    chunk_size: int,
    window_ms: u64,
    start: int,
)
    requires
        0 <= start <= signals.len(),
        chunk_size > 0,
    ensures
        ({
            let s = ranges_from(signals, chunk_size, window_ms, false, start);
            &&& forall|i: int|
                0 <= i < s.len() - 1 ==> (#[trigger] s[i]).1 - s[i].0 == chunk_size
            &&& s.len() > 0 ==> 0 < s.last().1 - s.last().0 <= chunk_size
            &&& s.len() > 0 ==> s.last().1 == signals.len()
        }),
    decreases signals.len() - start,
{
    if start < signals.len() {
        lemma_chunk_end(signals, chunk_size, window_ms, false, start);
        let end = chunk_end(signals, chunk_size, window_ms, false, start);
        chunks_have_their_size(signals, chunk_size, window_ms, end);
        let rest = ranges_from(signals, chunk_size, window_ms, false, end);
        let s = seq![(start, end)] + rest;
        assert forall|i: int| 0 <= i < s.len() - 1 implies (#[trigger] s[i]).1 - s[i].0
            == chunk_size by {
            if i > 0 {
                assert(s[i] == rest[i - 1]);
            } else {
                assert(rest.len() > 0);
                assert(end < signals.len());
            }
        }
        if rest.len() > 0 {
            assert(s.last() == rest.last());
        } else {
            chunks_cover_the_frames(signals, chunk_size, window_ms, false, end);
        }
    }
}

proof fn lemma_window(signals: Seq<FrameSignal>, limit: u64, i: int)
    requires
        0 <= i <= signals.len(),
    ensures
        ({
            let e = window_end(signals, limit, i);
            &&& i <= e <= signals.len()
            &&& forall|f: int| i <= f < e ==> (#[trigger] signals[f]).pts_ms < limit
            &&& e < signals.len() ==> signals[e].pts_ms >= limit
        }),
    decreases signals.len() - i,
{
    if i < signals.len() && signals[i].pts_ms < limit {
        lemma_window(signals, limit, i + 1);
    }
}

/// A chunk that is cut by time takes the frames that come within the window of
/// its first one, and ends with the first that does not.
pub proof fn timed_chunks_keep_to_their_window(
    signals: Seq<FrameSignal>,
    chunk_size: int,
    window_ms: u64,
    start: int,
    i: int,
)
    requires
        0 <= start <= signals.len(),
        0 <= i < ranges_from(signals, chunk_size, window_ms, true, start).len(),
    ensures
        ({
            let (first, end) = ranges_from(signals, chunk_size, window_ms, true, start)[i];
            &&& 0 <= first < end <= signals.len()
            &&& forall|f: int|
                first < f < end ==> (#[trigger] signals[f]).pts_ms < signals[first].pts_ms
                    + window_ms
            &&& end < signals.len() ==> signals[end].pts_ms >= signals[first].pts_ms + window_ms
                || signals[end].pts_ms == u64::MAX
        }),
    decreases signals.len() - start,
{
    if start < signals.len() {
        lemma_chunk_end(signals, chunk_size, window_ms, true, start);
        let end = chunk_end(signals, chunk_size, window_ms, true, start);
        lemma_window(signals, window_limit(signals[start].pts_ms, window_ms), start + 1);
        let rest = ranges_from(signals, chunk_size, window_ms, true, end);
        if i > 0 {
            timed_chunks_keep_to_their_window(signals, chunk_size, window_ms, end, i - 1);
            assert((seq![(start, end)] + rest)[i] == rest[i - 1]);
        }
    }
}

/// A chunk spans the frames of its range: it starts at the time of the first and
/// ends at that of the last. A clip is cut for it where clips are asked for and
/// a model is there: it begins with the chunk, is no longer than the window that
/// is asked for, does not go past the end of the source, and is longer only
/// where the least, a millisecond, is. A chunk is left out only where it is shown
/// as a clip and begins past the end of the source.
pub proof fn chunks_span_their_frames(
    signals: Seq<FrameSignal>,
    range: (int, int),
    index: int,
    media: SemanticMediaConfig,
    source_duration_ms: Option<u64>,
    enabled: bool,
)
    requires
        0 <= range.0 < range.1 <= signals.len() <= usize::MAX,
        0 <= index <= usize::MAX,
    ensures
        ({
            let p = prep_of(signals, range, index, media, source_duration_ms, enabled);
            let begins = signals[range.0].pts_ms;
            let clips = media.mode != SemanticMediaMode::Frames;
            let beyond = clips && source_duration_ms is Some && source_duration_ms->0 <= begins;
            &&& p is None <==> beyond
            &&& p is Some ==> {
                let c = p->0;
                &&& c.frame_offset == range.0
                &&& c.frame_offset + c.chunk_len == range.1
                &&& c.pts_start_ms == begins
                &&& c.pts_end_ms == signals[c.frame_offset + c.chunk_len - 1].pts_ms
                &&& c.clip_spec is Some <==> clips && enabled
                &&& c.clip_spec is Some ==> {
                    let clip = c.clip_spec->0;
                    &&& clip.source_start_ms == c.pts_start_ms
                    &&& clip.duration_ms >= 1
                    &&& clip.duration_ms <= media.window_ms || clip.duration_ms == 1
                    &&& source_duration_ms is Some ==> clip.source_start_ms + clip.duration_ms
                        <= source_duration_ms->0
                    &&& source_duration_ms is None && media.window_ms >= 1 ==> clip.duration_ms
                        == media.window_ms
                    &&& source_duration_ms is Some && 1 <= media.window_ms
                        <= source_duration_ms->0 - begins ==> clip.duration_ms == media.window_ms
                    &&& source_duration_ms is Some && source_duration_ms->0 - begins
                        < media.window_ms ==> clip.source_start_ms + clip.duration_ms
                        == source_duration_ms->0
                    &&& clip.mode == media.mode
                    &&& clip.chunk_index == index
                }
            }
        }),
{
}

/// The chunks come in the order of their ranges: one more range adds its chunk
/// behind the others, or none where the range makes none. Where single frames
/// are shown, every range makes one.
pub proof fn each_range_makes_its_chunk(
    signals: Seq<FrameSignal>,
    ranges: Seq<(int, int)>,
    k: int,
    media: SemanticMediaConfig,
    source_duration_ms: Option<u64>,
    enabled: bool,
)
    requires
        0 <= k < ranges.len(),
    ensures
        ({
            let before = preps_upto(signals, ranges, k, media, source_duration_ms, enabled);
            let after = preps_upto(signals, ranges, k + 1, media, source_duration_ms, enabled);
            let p = prep_of(signals, ranges[k], k, media, source_duration_ms, enabled);
            &&& p is Some ==> after.len() == before.len() + 1 && after.last() == p->0
                && after.drop_last() == before
            &&& p is None ==> after == before
            &&& media.mode == SemanticMediaMode::Frames ==> p is Some
        }),
{
    let before = preps_upto(signals, ranges, k, media, source_duration_ms, enabled);
    if let Some(p) = prep_of(signals, ranges[k], k, media, source_duration_ms, enabled) {
        assert(before.push(p).drop_last() =~= before);
    }
}

proof fn lemma_last_position(indices: Seq<u64>, index: int, k: int)
    requires
        0 <= k <= indices.len(),
    ensures
        match last_position(indices, index, k) {
            Some(p) => 0 <= p < k && indices[p] == index && forall|j: int|
                p < j < k ==> #[trigger] indices[j] != index,
            None => forall|j: int| 0 <= j < k ==> #[trigger] indices[j] != index,
        },
    decreases k,
{
    if k > 0 {
        lemma_last_position(indices, index, k - 1);
    }
}

/// The decoded frames of a chunk are those whose index lies in it: of each index
/// the last that was decoded, in the order of the indices, and none is left out.
pub proof fn decoded_frames_go_to_their_chunk(indices: Seq<u64>, start: int, end: int)
    requires
        0 <= start <= end,
    ensures
        ({
            let p = positions_within(indices, start, end);
            &&& forall|i: int|
                0 <= i < p.len() ==> 0 <= #[trigger] p[i] < indices.len() && start <= indices[p[i]]
                    < end
            &&& forall|i: int, j: int|
                0 <= i < j < p.len() ==> indices[#[trigger] p[i]] < indices[#[trigger] p[j]]
            &&& forall|i: int, q: int|
                #![trigger p[i], indices[q]]
                0 <= i < p.len() && p[i] < q < indices.len() ==> indices[q] != indices[p[i]]
            &&& forall|q: int|
                #![trigger indices[q]]
                0 <= q < indices.len() && start <= indices[q] < end ==> exists|i: int|
                    0 <= i < p.len() && indices[#[trigger] p[i]] == indices[q]
        }),
    decreases end - start,
{
    if start < end {
        let head = positions_within(indices, start, end - 1);
        decoded_frames_go_to_their_chunk(indices, start, end - 1);
        lemma_last_position(indices, end - 1, indices.len() as int);
        let p = positions_within(indices, start, end);
        assert forall|q: int|
            #![trigger indices[q]]
            0 <= q < indices.len() && start <= indices[q] < end implies exists|i: int|
            0 <= i < p.len() && indices[#[trigger] p[i]] == indices[q] by {
            if indices[q] < end - 1 {
                let i = choose|i: int|
                    0 <= i < head.len() && indices[#[trigger] head[i]] == indices[q];
                assert(p[i] == head[i]);
            } else {
                assert(p[head.len() as int] == last_position(
                    indices,
                    end - 1,
                    indices.len() as int,
                )->0);
            }
        }
    }
}

/// What one chunk is told of the one before comes behind its own prompt, and
/// only where something is known.
pub proof fn prompts_carry_what_was_seen(chain: ChainView, prompt: Seq<char>)
    ensures
        ({
            let p = chain_prompt_of(chain, prompt);
            &&& prompt.is_prefix_of(p)
            &&& chain.last_description.len() == 0 ==> p == prompt
            &&& chain.last_description.len() > 0 ==> p.len() > prompt.len() + decimal(
                chain.last_pts_ms as nat,
            ).len() + clipped(chain.last_description, 200).len()
        }),
{
    reveal_strlit("\n[previous_state (");
    reveal_strlit("ms): ");
    reveal_strlit("]");
    let p = chain_prompt_of(chain, prompt);
    assert(p.take(prompt.len() as int) =~= prompt);
}

/// A clip lasts as long as its window, or as its source still does where that is
/// less, and a millisecond at least.
pub proof fn clips_keep_to_their_source(window_ms: u64, source_duration_ms: Option<u64>, start: u64)
    requires
        window_ms >= 1,
    ensures
        ({
            let lasts = clip_duration(window_ms, source_duration_ms, start);
            &&& 1 <= lasts <= window_ms
            &&& source_duration_ms is None ==> lasts == window_ms
            &&& source_duration_ms matches Some(total) ==> start + window_ms <= total ==> lasts
                == window_ms
            &&& source_duration_ms matches Some(total) ==> start < total < start + window_ms
                ==> start + lasts == total
        }),
{
}

/// What was told of a chunk last is what the next one is asked with: its raw
/// answer where that says something, else its description; where neither is
/// there, what was told before.
pub proof fn chains_carry_the_last_word(
    chain: ChainView,
    raw_output: Option<Seq<char>>,
    description: Option<Seq<char>>,
    pts_end_ms: u64,
)
    ensures
        ({
            let after = chain_after(chain, raw_output, description, pts_end_ms);
            let says = raw_output is Some && vstd::utf8::encode_utf8(raw_output->0).len() >= 5;
            &&& says ==> after.last_description == clipped(raw_output->0, 200) && after.last_pts_ms
                == pts_end_ms
            &&& raw_output is Some && !says ==> after == chain
            &&& raw_output is None && description is None ==> after == chain
            &&& raw_output is None && description is Some ==> after.last_description == clipped(
                description->0,
                200,
            ) && after.last_pts_ms == pts_end_ms
        }),
{
}

} // verus!
