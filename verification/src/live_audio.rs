//! Live audio: access units gathered into windows, windows put into Ogg, and
//! what was heard told as events.

use vstd::prelude::*;

use crate::audio::{audio_moment_kind, heard_kind, AudioAnalysis, AudioObservation, ObservationView};
use crate::chunk_infer::AudioOutcome;
use crate::chunk_result::AudioFailureReason;
use crate::digits::{decimal, push_decimal};
use crate::files::{lossy_text, text_from_bytes};
use crate::json::{fraction_view, number_view, Fields, Json, JsonView};
use crate::ogg::{append_ogg_page, fits_page, le_bytes, page_of, push_all, push_le};
use crate::overlay::later;
use crate::runs::EventAppend;
use crate::sort::views;
use crate::text::{is_blank, owned, same, trim, trimmed};

verus! {

/// A window shorter than this is not worth a look at the end.
pub const MIN_LIVE_AUDIO_WINDOW_MS: u64 = 250;

/// The samples at the begin of a stream that are not heard.
pub const OPUS_PRE_SKIP: u16 = 312;

/// The ticks of the clock of Opus in a second.
pub const OPUS_CLOCK_RATE: u32 = 48000;

/// One encoded piece of sound.
#[derive(Debug)]
pub struct LiveAudioFrame {
    pub track_id: u64,
    pub rtp_timestamp: u32,
    pub clock_rate: u32,
    pub sequence_number: Option<u16>,
    pub data: Vec<u8>,
}

/// What a piece of sound is.
pub ghost struct FrameView {
    pub track_id: u64,
    pub rtp_timestamp: u32,
    pub clock_rate: u32,
    pub sequence_number: Option<u16>,
    pub data: Seq<u8>,
}

impl View for LiveAudioFrame {
    type V = FrameView;

    open spec fn view(&self) -> FrameView {
        FrameView {
            track_id: self.track_id,
            rtp_timestamp: self.rtp_timestamp,
            clock_rate: self.clock_rate,
            sequence_number: self.sequence_number,
            data: self.data@,
        }
    }
}

// ----------------------------------------------------------- windows
/// How far a clock of 32 bits is behind another time of it.
pub open spec fn ticks_since(now: u32, then: u32) -> u32 {
    if now >= then {
        (now - then) as u32
    } else {
        (now - then + 0x1_0000_0000) as u32
    }
}

/// Ticks as milliseconds.
pub open spec fn ticks_ms(ticks: u32, clock_rate: u32) -> u64 {
    if clock_rate == 0 {
        0
    } else {
        (ticks as int * 1000 / clock_rate as int) as u64
    }
}

fn ms_since(now: u32, then: u32, clock_rate: u32) -> (r: u64)
    ensures
        r == ticks_ms(ticks_since(now, then), clock_rate),
{
    if clock_rate == 0 {
        return 0;
    }
    let ticks: u32 = now.wrapping_sub(then);
    let ms: u64 = (ticks as u64 * 1000) / clock_rate as u64;
    ms
}

/// The pieces of one track that are not yet in a window.
#[derive(Debug)]
pub struct TrackAccumulator {
    pub anchor_timestamp: u32,
    pub window_start_timestamp: u32,
    pub clock_rate: u32,
    pub last_sequence_number: Option<u16>,
    pub frames: Vec<LiveAudioFrame>,
}

/// The pieces of one track that are not yet in a window.
pub ghost struct TrackView {
    pub anchor_timestamp: u32,
    pub window_start_timestamp: u32,
    pub clock_rate: u32,
    pub last_sequence_number: Option<u16>,
    pub frames: Seq<FrameView>,
}

impl View for TrackAccumulator {
    type V = TrackView;

    open spec fn view(&self) -> TrackView {
        TrackView {
            anchor_timestamp: self.anchor_timestamp,
            window_start_timestamp: self.window_start_timestamp,
            clock_rate: self.clock_rate,
            last_sequence_number: self.last_sequence_number,
            frames: views(self.frames@),
        }
    }
}

/// A window of sound.
#[derive(Debug)]
pub struct LiveAudioWindow {
    pub track_id: u64,
    pub source_start_ms: u64,
    pub frames: Vec<LiveAudioFrame>,
}

/// What a window of sound is.
pub ghost struct WindowView {
    pub track_id: u64,
    pub source_start_ms: u64,
    pub frames: Seq<FrameView>,
}

impl View for LiveAudioWindow {
    type V = WindowView;

    open spec fn view(&self) -> WindowView {
        WindowView {
            track_id: self.track_id,
            source_start_ms: self.source_start_ms,
            frames: views(self.frames@),
        }
    }
}

/// A track that begins with a piece.
pub open spec fn track_of(frame: FrameView) -> TrackView {
    TrackView {
        anchor_timestamp: frame.rtp_timestamp,
        window_start_timestamp: frame.rtp_timestamp,
        clock_rate: frame.clock_rate,
        last_sequence_number: frame.sequence_number,
        frames: seq![frame],
    }
}

/// A track with one more piece.
pub open spec fn with_frame(t: TrackView, frame: FrameView) -> TrackView {
    TrackView {
        window_start_timestamp: if t.frames.len() == 0 {
            frame.rtp_timestamp
        } else {
            t.window_start_timestamp
        },
        last_sequence_number: frame.sequence_number,
        frames: t.frames.push(frame),
        ..t
    }
}

/// A piece goes on where a track is: with the same clock, and with the next
/// number where both have one.
pub open spec fn goes_on(t: TrackView, frame: FrameView) -> bool {
    t.clock_rate == frame.clock_rate && match (t.last_sequence_number, frame.sequence_number) {
        (Some(previous), Some(next)) => next == if previous == u16::MAX {
            0
        } else {
            (previous + 1) as u16
        },
        _ => true,
    }
}

/// The milliseconds from the begin of a window to its last piece.
pub open spec fn track_ms(t: TrackView) -> u64 {
    if t.frames.len() == 0 {
        0
    } else {
        ticks_ms(ticks_since(t.frames.last().rtp_timestamp, t.window_start_timestamp), t.clock_rate)
    }
}

/// The milliseconds from the begin of a track to that of a window.
pub open spec fn track_start_ms(t: TrackView) -> u64 {
    ticks_ms(ticks_since(t.window_start_timestamp, t.anchor_timestamp), t.clock_rate)
}

/// The window that a track holds.
pub open spec fn window_of(t: TrackView) -> WindowView {
    WindowView {
        track_id: if t.frames.len() == 0 {
            0
        } else {
            t.frames[0].track_id
        },
        source_start_ms: track_start_ms(t),
        frames: t.frames,
    }
}

impl TrackAccumulator {
    /// A track that begins with a piece.
    pub fn new(frame: LiveAudioFrame) -> (r: Self)
        ensures
            r@ == track_of(frame@),
    {
        let ghost fv = frame@;
        let anchor: u32 = frame.rtp_timestamp;
        let clock_rate: u32 = frame.clock_rate;
        let last_sequence_number = frame.sequence_number;
        let mut frames: Vec<LiveAudioFrame> = Vec::new();
        frames.push(frame);
        assert(views(frames@) =~= seq![fv]);
        TrackAccumulator {
            anchor_timestamp: anchor,
            window_start_timestamp: anchor,
            clock_rate,
            last_sequence_number,
            frames,
        }
    }

    /// Adds a piece.
    pub fn push(&mut self, frame: LiveAudioFrame)
        ensures
            final(self)@ == with_frame(old(self)@, frame@),
    {
        let ghost before = views(self.frames@);
        let ghost fv = frame@;
        if self.frames.len() == 0 {
            self.window_start_timestamp = frame.rtp_timestamp;
        }
        self.last_sequence_number = frame.sequence_number;
        self.frames.push(frame);
        assert(views(self.frames@) =~= before.push(fv));
    }

    /// Whether a piece goes on where the track is.
    pub fn accepts(&self, frame: &LiveAudioFrame) -> (r: bool)
        ensures
            r == goes_on(self@, frame@),
    {
        self.clock_rate == frame.clock_rate && match (
            self.last_sequence_number,
            frame.sequence_number,
        ) {
            (Some(previous), Some(next)) => previous.wrapping_add(1) == next,
            _ => true,
        }
    }

    /// The milliseconds from the begin of the window to its last piece.
    pub fn duration_ms(&self) -> (r: u64)
        ensures
            r == track_ms(self@),
    {
        if self.frames.len() == 0 {
            return 0;
        }
        let last: u32 = self.frames[self.frames.len() - 1].rtp_timestamp;
        assert(self@.frames.last() == self.frames@[self.frames@.len() - 1]@);
        ms_since(last, self.window_start_timestamp, self.clock_rate)
    }

    /// The milliseconds from the begin of the track to that of the window.
    pub fn source_start_ms(&self) -> (r: u64)
        ensures
            r == track_start_ms(self@),
    {
        ms_since(self.window_start_timestamp, self.anchor_timestamp, self.clock_rate)
    }

    /// Takes the window out; the track goes on without pieces.
    pub fn take_window(&mut self) -> (r: LiveAudioWindow)
        ensures
            r@ == window_of(old(self)@),
            final(self)@ == (TrackView { frames: Seq::empty(), ..old(self)@ }),
    {
        let source_start_ms: u64 = self.source_start_ms();
        let mut frames: Vec<LiveAudioFrame> = Vec::new();
        std::mem::swap(&mut frames, &mut self.frames);
        assert(views(self.frames@) =~= Seq::empty());
        let track_id: u64 = if frames.len() == 0 {
            0
        } else {
            assert(views(frames@)[0] == frames@[0]@);
            frames[0].track_id
        };
        LiveAudioWindow { track_id, source_start_ms, frames }
    }
}

// ----------------------------------------------------------- tracks
/// The tracks of a session, each with its number.
#[derive(Debug)]
pub struct LiveTracks {
    pub tracks: Vec<(u64, TrackAccumulator)>,
}

impl View for LiveTracks {
    type V = Seq<(u64, TrackView)>;

    open spec fn view(&self) -> Seq<(u64, TrackView)> {
        self.tracks@.map_values(|t: (u64, TrackAccumulator)| (t.0, t.1@))
    }
}

/// Where the track of some number stands.
pub open spec fn track_place(tracks: Seq<(u64, TrackView)>, track_id: u64) -> Option<int>
    decreases tracks.len(),
{
    if tracks.len() == 0 {
        None
    } else if tracks[0].0 == track_id {
        Some(0)
    } else {
        match track_place(tracks.drop_first(), track_id) {
            Some(i) => Some(i + 1),
            None => None,
        }
    }
}

/// A piece that says nothing.
pub open spec fn is_void(frame: FrameView) -> bool {
    frame.clock_rate == 0 || frame.data.len() == 0
}

/// A track after one more piece, and the window that is full or broken off with
/// it.
pub open spec fn taken(t: TrackView, frame: FrameView, window_ms: u64) -> (
    TrackView,
    Option<WindowView>,
) {
    if !goes_on(t, frame) {
        (
            track_of(frame),
            if t.frames.len() > 1 {
                Some(window_of(t))
            } else {
                None
            },
        )
    } else {
        let now = with_frame(t, frame);
        if track_ms(now) >= window_ms {
            (TrackView { frames: Seq::empty(), ..now }, Some(window_of(now)))
        } else {
            (now, None)
        }
    }
}

/// The tracks after one more piece, and the window that comes with it.
pub open spec fn tracks_after(
    tracks: Seq<(u64, TrackView)>,
    frame: FrameView,
    window_ms: u64,
) -> (Seq<(u64, TrackView)>, Option<WindowView>) {
    if is_void(frame) {
        (tracks, None)
    } else {
        match track_place(tracks, frame.track_id) {
            None => (tracks.push((frame.track_id, track_of(frame))), None),
            Some(i) => {
                let next = taken(tracks[i].1, frame, window_ms);
                (tracks.update(i, (frame.track_id, next.0)), next.1)
            },
        }
    }
}

/// The windows of the tracks that are long enough at the end.
pub open spec fn last_windows(tracks: Seq<(u64, TrackView)>) -> Seq<WindowView>
    decreases tracks.len(),
{
    if tracks.len() == 0 {
        Seq::empty()
    } else {
        let before = last_windows(tracks.drop_last());
        if track_ms(tracks.last().1) >= MIN_LIVE_AUDIO_WINDOW_MS {
            before.push(window_of(tracks.last().1))
        } else {
            before
        }
    }
}

/// An optional window.
pub open spec fn opt_window(w: Option<LiveAudioWindow>) -> Option<WindowView> {
    match w {
        Some(v) => Some(v@),
        None => None,
    }
}

impl TrackAccumulator {
    /// Takes one more piece, and gives out the window that is full or broken
    /// off with it.
    pub fn take(&mut self, frame: LiveAudioFrame, window_ms: u64) -> (r: Option<LiveAudioWindow>)
        ensures
            final(self)@ == taken(old(self)@, frame@, window_ms).0,
            opt_window(r) == taken(old(self)@, frame@, window_ms).1,
    {
        if !self.accepts(&frame) {
            let stale = self.take_window();
            let many = stale.frames.len() > 1;
            *self = TrackAccumulator::new(frame);
            if many {
                Some(stale)
            } else {
                None
            }
        } else {
            self.push(frame);
            if self.duration_ms() >= window_ms {
                Some(self.take_window())
            } else {
                None
            }
        }
    }
}

proof fn lemma_track_place(tracks: Seq<(u64, TrackView)>, track_id: u64, k: int)
    requires
        0 <= k <= tracks.len(),
        forall|i: int| 0 <= i < k ==> (#[trigger] tracks[i]).0 != track_id,
        k < tracks.len() ==> tracks[k].0 == track_id,
    ensures
        track_place(tracks, track_id) == if k < tracks.len() {
            Some(k)
        } else {
            None
        },
    decreases k,
{
    if k > 0 {
        let rest = tracks.drop_first();
        assert forall|i: int| 0 <= i < k - 1 implies (#[trigger] rest[i]).0 != track_id by {
            assert(rest[i] == tracks[i + 1]);
        }
        assert(tracks[0].0 != track_id);
        lemma_track_place(rest, track_id, k - 1);
    }
}

impl LiveTracks {
    /// No track.
    pub fn new() -> (r: Self)
        ensures
            r@ == Seq::<(u64, TrackView)>::empty(),
    {
        let r = LiveTracks { tracks: Vec::new() };
        assert(r@ =~= Seq::empty());
        r
    }

    /// Takes one more piece, and gives out the window that is full or broken
    /// off with it. A piece that says nothing is dropped.
    pub fn accept(&mut self, frame: LiveAudioFrame, window_ms: u64) -> (r: Option<LiveAudioWindow>)
        ensures
            final(self)@ == tracks_after(old(self)@, frame@, window_ms).0,
            opt_window(r) == tracks_after(old(self)@, frame@, window_ms).1,
    {
        let ghost before = self@;
        let ghost fv = frame@;
        if frame.clock_rate == 0 || frame.data.len() == 0 {
            return None;
        }
        let track_id: u64 = frame.track_id;
        let mut i: usize = 0;
        while i < self.tracks.len() && self.tracks[i].0 != track_id
            invariant
                *self == *old(self),
                self@ == before,
                i <= self.tracks@.len(),
                forall|j: int| 0 <= j < i ==> (#[trigger] before[j]).0 != track_id,
            ensures
                i <= self.tracks@.len(),
                i < self.tracks@.len() ==> before[i as int].0 == track_id,
                forall|j: int| 0 <= j < i ==> (#[trigger] before[j]).0 != track_id,
            decreases self.tracks@.len() - i,
        {
            assert(before[i as int].0 == self.tracks@[i as int].0);
            i += 1;
        }
        proof {
            lemma_track_place(before, track_id, i as int);
        }
        if i < self.tracks.len() {
            let window = self.tracks[i].1.take(frame, window_ms);
            assert(self@ =~= before.update(
                i as int,
                (track_id, taken(before[i as int].1, fv, window_ms).0),
            ));
            window
        } else {
            self.tracks.push((track_id, TrackAccumulator::new(frame)));
            assert(self@ =~= before.push((track_id, track_of(fv))));
            None
        }
    }

    /// The windows that are long enough at the end.
    pub fn finish(self) -> (r: Vec<LiveAudioWindow>)
        ensures
            views(r@) == last_windows(self@),
    {
        let ghost all = self@;
        let mut tracks = self.tracks;
        let mut out: Vec<LiveAudioWindow> = Vec::new();
        let mut i: usize = 0;
        assert(all.take(0) =~= Seq::empty());
        assert(views(out@) =~= Seq::empty());
        while i < tracks.len()
            invariant
                tracks@.len() == all.len(),
                i <= tracks@.len(),
                forall|j: int| i <= j < all.len() ==> (#[trigger] tracks@[j]).1@ == all[j].1,
                views(out@) == last_windows(all.take(i as int)),
            decreases tracks@.len() - i,
        {
            assert(all.take(i + 1).drop_last() =~= all.take(i as int));
            assert(all.take(i + 1).last() == all[i as int]);
            assert(tracks@[i as int].1@ == all[i as int].1);
            if tracks[i].1.duration_ms() >= MIN_LIVE_AUDIO_WINDOW_MS {
                let ghost before = views(out@);
                let window = tracks[i].1.take_window();
                let ghost wv = window@;
                out.push(window);
                assert(views(out@) =~= before.push(wv));
            }
            i += 1;
        }
        assert(all.take(i as int) =~= all);
        out
    }
}

// ----------------------------------------------------------- Ogg
/// The number of the stream in its pages.
pub const OGG_SERIAL: u32 = 0x5649_4458;

/// The packet that says what a stream is: Opus, one version, two channels, the
/// samples that are not heard, the clock, no gain, and the usual mapping.
pub open spec fn head_packet() -> Seq<u8> {
    seq![0x4f, 0x70, 0x75, 0x73, 0x48, 0x65, 0x61, 0x64, 1u8, 2u8] + le_bytes(
        OPUS_PRE_SKIP as nat,
        2,
    ) + le_bytes(OPUS_CLOCK_RATE as nat, 4) + le_bytes(0, 2) + seq![0u8]
}

/// The packet that says who made a stream, and nothing else.
pub open spec fn tags_packet() -> Seq<u8> {
    seq![0x4f, 0x70, 0x75, 0x73, 0x54, 0x61, 0x67, 0x73] + le_bytes(7, 4) + seq![
        0x76,
        0x69,
        0x64,
        0x61,
        0x72,
        0x61,
        0x78,
    ] + le_bytes(0, 4)
}

/// The ticks that a piece lasts: those to the next piece, for the last one
/// those from the one before, and for an only piece 20 milliseconds; at least
/// 2.5 milliseconds and at most 120.
pub open spec fn frame_ticks(frames: Seq<FrameView>, i: int) -> u32 {
    let ticks = if i + 1 < frames.len() {
        ticks_since(frames[i + 1].rtp_timestamp, frames[i].rtp_timestamp)
    } else if i >= 1 {
        ticks_since(frames[i].rtp_timestamp, frames[i - 1].rtp_timestamp)
    } else {
        960
    };
    if ticks < 120 {
        120
    } else if ticks > 5760 {
        5760
    } else {
        ticks
    }
}

/// The samples that were played when a piece ends.
pub open spec fn granule_of(frames: Seq<FrameView>, i: int) -> u64 {
    (OPUS_PRE_SKIP + ticks_since(frames[i].rtp_timestamp, frames[0].rtp_timestamp) + frame_ticks(
        frames,
        i,
    )) as u64
}

/// The number of the next page after some pieces; pieces without bytes have
/// none.
pub open spec fn next_page(frames: Seq<FrameView>, n: int) -> u32
    decreases n,
{
    if n <= 0 {
        2
    } else {
        let before = next_page(frames, n - 1);
        if frames[n - 1].data.len() == 0 || before == u32::MAX {
            before
        } else {
            (before + 1) as u32
        }
    }
}

/// The pages of some pieces.
pub open spec fn frame_pages(frames: Seq<FrameView>, n: int) -> Seq<u8>
    decreases n,
{
    if n <= 0 {
        page_of(head_packet(), 0, OGG_SERIAL, 0, 0x02) + page_of(tags_packet(), 0, OGG_SERIAL, 1, 0)
    } else {
        let before = frame_pages(frames, n - 1);
        if frames[n - 1].data.len() == 0 {
            before
        } else {
            before + page_of(
                frames[n - 1].data,
                granule_of(frames, n - 1),
                OGG_SERIAL,
                next_page(frames, n - 1),
                if n == frames.len() {
                    0x04
                } else {
                    0
                },
            )
        }
    }
}

/// Each piece fits a page.
pub open spec fn all_fit(frames: Seq<FrameView>) -> bool {
    forall|i: int| 0 <= i < frames.len() ==> fits_page((#[trigger] frames[i]).data.len())
}

fn opus_head() -> (r: Vec<u8>)
    ensures
        r@ == head_packet(),
{
    let mut head: Vec<u8> = vec![0x4f, 0x70, 0x75, 0x73, 0x48, 0x65, 0x61, 0x64, 1, 2];
    assert(head@ =~= seq![0x4f, 0x70, 0x75, 0x73, 0x48, 0x65, 0x61, 0x64, 1u8, 2u8]);
    push_le(&mut head, OPUS_PRE_SKIP as u64, 2);
    push_le(&mut head, OPUS_CLOCK_RATE as u64, 4);
    push_le(&mut head, 0, 2);
    let ghost before = head@;
    head.push(0);
    assert(head@ =~= before + seq![0u8]);
    head
}

fn opus_tags() -> (r: Vec<u8>)
    ensures
        r@ == tags_packet(),
{
    let mut tags: Vec<u8> = vec![0x4f, 0x70, 0x75, 0x73, 0x54, 0x61, 0x67, 0x73];
    assert(tags@ =~= seq![0x4f, 0x70, 0x75, 0x73, 0x54, 0x61, 0x67, 0x73]);
    push_le(&mut tags, 7, 4);
    let vendor: Vec<u8> = vec![0x76, 0x69, 0x64, 0x61, 0x72, 0x61, 0x78];
    assert(vendor@ =~= seq![0x76, 0x69, 0x64, 0x61, 0x72, 0x61, 0x78]);
    push_all(&mut tags, vendor.as_slice());
    push_le(&mut tags, 0, 4);
    tags
}

proof fn lemma_headers_fit()
    ensures
        fits_page(head_packet().len()),
        fits_page(tags_packet().len()),
{
    reveal_with_fuel(le_bytes, 5);
    assert(head_packet().len() == 19);
    assert(tags_packet().len() == 23);
}

fn ticks_of(frames: &Vec<LiveAudioFrame>, i: usize) -> (r: u32)
    requires
        i < frames@.len(),
    ensures
        r == frame_ticks(views(frames@), i as int),
        r <= 5760,
{
    let now: u32 = frames[i].rtp_timestamp;
    let ghost all = views(frames@);
    assert(all[i as int] == frames@[i as int]@);
    let ticks: u32 = if i < frames.len() - 1 {
        assert(all[i + 1] == frames@[i + 1]@);
        frames[i + 1].rtp_timestamp.wrapping_sub(now)
    } else if i >= 1 {
        assert(all[i - 1] == frames@[i - 1]@);
        now.wrapping_sub(frames[i - 1].rtp_timestamp)
    } else {
        960
    };
    if ticks < 120 {
        120
    } else if ticks > 5760 {
        5760
    } else {
        ticks
    }
}

/// A window as an Ogg stream of Opus: a page that says what it is, a page that
/// says who made it, and a page for each piece that has bytes.
pub fn build_ogg_opus(frames: &Vec<LiveAudioFrame>) -> (r: Result<Vec<u8>, String>)
    requires
        frames@.len() > 0,
    ensures
        match r {
            Ok(stream) => all_fit(views(frames@)) && stream@ == frame_pages(
                views(frames@),
                frames@.len() as int,
            ),
            Err(e) => !all_fit(views(frames@)) && e@
                == "Opus packet is too large for one Ogg page"@,
        },
{
    let ghost all = views(frames@);
    let mut output: Vec<u8> = Vec::new();
    let head = opus_head();
    let tags = opus_tags();
    proof {
        lemma_headers_fit();
    }
    let _ = append_ogg_page(&mut output, head.as_slice(), 0, OGG_SERIAL, 0, 0x02);
    let _ = append_ogg_page(&mut output, tags.as_slice(), 0, OGG_SERIAL, 1, 0);
    assert(output@ =~= frame_pages(all, 0));
    let first: u32 = frames[0].rtp_timestamp;
    assert(all[0] == frames@[0]@);
    let mut sequence: u32 = 2;
    let mut i: usize = 0;
    while i < frames.len()
        invariant
            all == views(frames@),
            frames@.len() > 0,
            first == all[0].rtp_timestamp,
            i <= frames@.len(),
            sequence == next_page(all, i as int),
            output@ == frame_pages(all, i as int),
            forall|j: int| 0 <= j < i ==> fits_page((#[trigger] all[j]).data.len()),
        decreases frames@.len() - i,
    {
        assert(all[i as int] == frames@[i as int]@);
        if frames[i].data.len() > 0 {
            let ticks: u32 = ticks_of(frames, i);
            let since: u32 = frames[i].rtp_timestamp.wrapping_sub(first);
            let granule: u64 = OPUS_PRE_SKIP as u64 + since as u64 + ticks as u64;
            let flags: u8 = if i == frames.len() - 1 {
                0x04
            } else {
                0
            };
            match append_ogg_page(
                &mut output,
                frames[i].data.as_slice(),
                granule,
                OGG_SERIAL,
                sequence,
                flags,
            ) {
                Ok(_) => {},
                Err(e) => {
                    return Err(e);
                },
            }
            sequence = sequence.saturating_add(1);
        }
        i += 1;
    }
    Ok(output)
}

/// The stream to decode for a window, where the window is one of Opus.
pub fn window_stream(frames: &Vec<LiveAudioFrame>) -> (r: Result<Vec<u8>, String>)
    ensures
        ({
            let all = views(frames@);
            let opus = forall|i: int|
                0 <= i < all.len() ==> (#[trigger] all[i]).clock_rate == OPUS_CLOCK_RATE;
            match r {
                Ok(stream) => all.len() > 0 && opus && all_fit(all) && stream@ == frame_pages(
                    all,
                    all.len() as int,
                ),
                Err(e) => if all.len() == 0 {
                    e@ == "live audio window is empty"@
                } else if !opus {
                    e@ == "live audio codec clock must be 48000 Hz Opus"@
                } else {
                    !all_fit(all) && e@ == "Opus packet is too large for one Ogg page"@
                },
            }
        }),
{
    let ghost all = views(frames@);
    if frames.len() == 0 {
        return Err(owned("live audio window is empty"));
    }
    let mut i: usize = 0;
    while i < frames.len()
        invariant
            all == views(frames@),
            frames@.len() > 0,
            i <= frames@.len(),
            forall|j: int| 0 <= j < i ==> (#[trigger] all[j]).clock_rate == OPUS_CLOCK_RATE,
        decreases frames@.len() - i,
    {
        assert(all[i as int] == frames@[i as int]@);
        if frames[i].clock_rate != OPUS_CLOCK_RATE {
            return Err(owned("live audio codec clock must be 48000 Hz Opus"));
        }
        i += 1;
    }
    build_ogg_opus(frames)
}

// ----------------------------------------------------------- events
/// What a window of sound is told with.
#[derive(Debug)]
pub struct LiveWindowTrace {
    pub session_id: String,
    pub track_id: u64,
    pub chunk_index: u64,
    pub source_start_ms: u64,
    pub frame_count: u64,
    pub decode_ms: u64,
    pub round_trip_ms: u64,
}

/// What a window of sound is told with.
pub ghost struct TraceView {
    pub session_id: Seq<char>,
    pub track_id: u64,
    pub chunk_index: u64,
    pub source_start_ms: u64,
    pub frame_count: u64,
    pub decode_ms: u64,
    pub round_trip_ms: u64,
}

impl View for LiveWindowTrace {
    type V = TraceView;

    open spec fn view(&self) -> TraceView {
        TraceView {
            session_id: self.session_id@,
            track_id: self.track_id,
            chunk_index: self.chunk_index,
            source_start_ms: self.source_start_ms,
            frame_count: self.frame_count,
            decode_ms: self.decode_ms,
            round_trip_ms: self.round_trip_ms,
        }
    }
}

/// The request that a session stands for.
pub open spec fn live_request(session_id: Seq<char>) -> Seq<char> {
    "live-audio:"@ + session_id
}

/// The event that tells of a window.
pub open spec fn window_event(t: TraceView, audio_duration_ms: u64, report: JsonView) -> (
    Seq<char>,
    JsonView,
) {
    (
        "semantic_chunk_inferred"@,
        JsonView::Object(
            seq![
                ("request_id"@, JsonView::Text(live_request(t.session_id))),
                ("stream_id"@, JsonView::Text("default"@)),
                ("session_id"@, JsonView::Text(t.session_id)),
                ("chunk_index"@, number_view(t.chunk_index)),
                ("track_id"@, number_view(t.track_id)),
                ("provider"@, JsonView::Text("local_audio"@)),
                ("media_mode"@, JsonView::Text("live_audio"@)),
                ("pts_start_ms"@, number_view(t.source_start_ms)),
                ("pts_end_ms"@, number_view(later(t.source_start_ms, audio_duration_ms))),
                ("timestamp_resolution_ms"@, number_view(1)),
                ("rtp_access_units"@, number_view(t.frame_count)),
                ("decode_ms"@, number_view(t.decode_ms)),
                ("round_trip_ms"@, number_view(t.round_trip_ms)),
                ("local_audio"@, report),
            ],
        ),
    )
}

/// Something heard is told of: it is more than mere voice activity, and it
/// lasts.
pub open spec fn is_told(o: ObservationView) -> bool {
    o.kind != "voice_activity"@ && o.end_offset_ms > o.start_offset_ms
}

/// The words that describe something heard live: what was said, or its label.
pub open spec fn live_description(o: ObservationView) -> Seq<char> {
    match o.transcript {
        Some(t) => if trimmed(t).len() == 0 {
            o.label
        } else {
            "Speaker: "@ + trimmed(t)
        },
        None => o.label,
    }
}

/// The event that tells of something heard.
pub open spec fn moment_event(t: TraceView, moment_index: nat, o: ObservationView) -> (
    Seq<char>,
    JsonView,
) {
    (
        "multimodal_moment"@,
        JsonView::Object(
            seq![
                (
                    "moment_id"@,
                    JsonView::Text(
                        live_request(t.session_id) + ":"@ + decimal(t.chunk_index as nat) + ":"@
                            + decimal(moment_index),
                    ),
                ),
                ("request_id"@, JsonView::Text(live_request(t.session_id))),
                ("stream_id"@, JsonView::Text("default"@)),
                ("session_id"@, JsonView::Text(t.session_id)),
                ("chunk_index"@, number_view(t.chunk_index)),
                ("track_id"@, number_view(t.track_id)),
                ("start_offset_ms"@, number_view(o.start_offset_ms)),
                ("end_offset_ms"@, number_view(o.end_offset_ms)),
                ("start_pts_ms"@, number_view(later(t.source_start_ms, o.start_offset_ms))),
                ("end_pts_ms"@, number_view(later(t.source_start_ms, o.end_offset_ms))),
                ("timestamp_resolution_ms"@, number_view(1)),
                ("modalities"@, JsonView::Array(seq![JsonView::Text("audio"@)])),
                ("kind"@, JsonView::Text(heard_kind(o))),
                ("description"@, JsonView::Text(live_description(o))),
                ("intent"@, JsonView::Null),
                ("audio_visual_relation"@, JsonView::Null),
                ("confidence"@, fraction_view(o.confidence.widened())),
                ("provider"@, JsonView::Text("local_audio"@)),
                ("evidence"@, JsonView::Null),
            ],
        ),
    )
}

/// The events that tell of what was heard, in its order.
pub open spec fn moment_events(t: TraceView, heard: Seq<ObservationView>) -> Seq<
    (Seq<char>, JsonView),
>
    decreases heard.len(),
{
    if heard.len() == 0 {
        Seq::empty()
    } else {
        let before = moment_events(t, heard.drop_last());
        if is_told(heard.last()) {
            before.push(moment_event(t, before.len(), heard.last()))
        } else {
            before
        }
    }
}

fn request_of(session_id: &str) -> (r: String)
    ensures
        r@ == live_request(session_id@),
{
    let mut out = owned("live-audio:");
    out.push_str(session_id);
    out
}

fn tell_window(t: &LiveWindowTrace, analysis: &AudioAnalysis) -> (r: EventAppend)
    ensures
        r@ == window_event(t@, analysis.audio_duration_ms, analysis.report@),
{
    let mut o = Fields::new();
    o.put("request_id", Json::text(request_of(t.session_id.as_str()).as_str()));
    o.put("stream_id", Json::text("default"));
    o.put("session_id", Json::text(t.session_id.as_str()));
    o.put("chunk_index", Json::number(t.chunk_index));
    o.put("track_id", Json::number(t.track_id));
    o.put("provider", Json::text("local_audio"));
    o.put("media_mode", Json::text("live_audio"));
    o.put("pts_start_ms", Json::number(t.source_start_ms));
    o.put(
        "pts_end_ms",
        Json::number(t.source_start_ms.saturating_add(analysis.audio_duration_ms)),
    );
    o.put("timestamp_resolution_ms", Json::number(1));
    o.put("rtp_access_units", Json::number(t.frame_count));
    o.put("decode_ms", Json::number(t.decode_ms));
    o.put("round_trip_ms", Json::number(t.round_trip_ms));
    o.put("local_audio", analysis.report.copy());
    assert(o@ =~= window_event(t@, analysis.audio_duration_ms, analysis.report@).1->Object_0);
    EventAppend { kind: "semantic_chunk_inferred", payload: o.object() }
}

fn describe(o: &AudioObservation) -> (r: String)
    ensures
        r@ == live_description(o@),
{
    match &o.transcript {
        Some(t) => {
            if is_blank(t.as_str()) {
                owned(o.label.as_str())
            } else {
                let mut out = owned("Speaker: ");
                out.push_str(trim(t.as_str()).as_str());
                out
            }
        },
        None => owned(o.label.as_str()),
    }
}

fn audio_only() -> (r: Json)
    ensures
        r@ == JsonView::Array(seq![JsonView::Text("audio"@)]),
{
    let mut items: Vec<Json> = Vec::new();
    items.push(Json::text("audio"));
    assert(crate::json::json_views(items@) =~= seq![JsonView::Text("audio"@)]);
    Json::list(items)
}

fn tell_moment(t: &LiveWindowTrace, moment_index: u64, o: &AudioObservation) -> (r: EventAppend)
    ensures
        r@ == moment_event(t@, moment_index as nat, o@),
{
    let request = request_of(t.session_id.as_str());
    let mut moment_id = owned(request.as_str());
    moment_id.push_str(":");
    push_decimal(&mut moment_id, t.chunk_index);
    moment_id.push_str(":");
    push_decimal(&mut moment_id, moment_index);
    let mut f = Fields::new();
    f.put("moment_id", Json::text(moment_id.as_str()));
    f.put("request_id", Json::text(request.as_str()));
    f.put("stream_id", Json::text("default"));
    f.put("session_id", Json::text(t.session_id.as_str()));
    f.put("chunk_index", Json::number(t.chunk_index));
    f.put("track_id", Json::number(t.track_id));
    f.put("start_offset_ms", Json::number(o.start_offset_ms));
    f.put("end_offset_ms", Json::number(o.end_offset_ms));
    f.put("start_pts_ms", Json::number(t.source_start_ms.saturating_add(o.start_offset_ms)));
    f.put("end_pts_ms", Json::number(t.source_start_ms.saturating_add(o.end_offset_ms)));
    f.put("timestamp_resolution_ms", Json::number(1));
    f.put("modalities", audio_only());
    f.put("kind", Json::text(audio_moment_kind(o)));
    f.put("description", Json::text(describe(o).as_str()));
    f.put("intent", Json::Null);
    f.put("audio_visual_relation", Json::Null);
    f.put("confidence", Json::single(o.confidence));
    f.put("provider", Json::text("local_audio"));
    f.put("evidence", Json::Null);
    assert(f@ =~= moment_event(t@, moment_index as nat, o@).1->Object_0);
    EventAppend { kind: "multimodal_moment", payload: f.object() }
}

/// The events that tell of a window: one of the window, and one of each thing
/// heard in it that is told of.
pub fn append_live_audio_events(t: &LiveWindowTrace, analysis: &AudioAnalysis) -> (r: Vec<
    EventAppend,
>)
    ensures
        views(r@) == seq![window_event(t@, analysis.audio_duration_ms, analysis.report@)]
            + moment_events(t@, views(analysis.observations@)),
{
    let ghost heard = views(analysis.observations@);
    let ghost first = window_event(t@, analysis.audio_duration_ms, analysis.report@);
    let mut out: Vec<EventAppend> = Vec::new();
    out.push(tell_window(t, analysis));
    let mut told: u64 = 0;
    let mut i: usize = 0;
    assert(heard.take(0) =~= Seq::empty());
    assert(views(out@) =~= seq![first] + moment_events(t@, heard.take(0)));
    while i < analysis.observations.len()
        invariant
            heard == views(analysis.observations@),
            i <= analysis.observations@.len(),
            told == moment_events(t@, heard.take(i as int)).len(),
            told <= i,
            views(out@) == seq![first] + moment_events(t@, heard.take(i as int)),
        decreases analysis.observations@.len() - i,
    {
        assert(heard.take(i + 1).drop_last() =~= heard.take(i as int));
        assert(heard.take(i + 1).last() == analysis.observations@[i as int]@);
        let o = &analysis.observations[i];
        if !same(o.kind.as_str(), "voice_activity") && o.end_offset_ms > o.start_offset_ms {
            let ghost before = views(out@);
            let ghost moments = moment_events(t@, heard.take(i as int));
            out.push(tell_moment(t, told, o));
            assert(views(out@) =~= before.push(moment_event(t@, told as nat, o@)));
            assert(seq![first] + moments.push(moment_event(t@, told as nat, o@)) =~= before.push(
                moment_event(t@, told as nat, o@),
            ));
            told += 1;
        }
        i += 1;
    }
    assert(heard.take(i as int) =~= heard);
    out
}

// ------------------------------------------------------------ windows
/// What the decoder made of the stream of a window, told with the text of its
/// complaints: the sound, where it ended well and there is more than a header.
pub open spec fn wav_problem(succeeded: bool, wav_bytes: nat, complaints: Seq<char>) -> Option<Seq<char>> {
    if !succeeded {
        Some("ffmpeg live Opus decode failed: "@ + trimmed(complaints))
    } else if wav_bytes < 44 {
        Some("ffmpeg returned an empty live audio WAV"@)
    } else {
        None
    }
}

/// Judges what the decoder made of the stream of a window. `complaints` is the
/// text of what it wrote about it.
pub fn judge_wav(succeeded: bool, wav: Vec<u8>, complaints: &str) -> (r: Result<Vec<u8>, String>)
    ensures
        match r {
            Ok(out) => wav_problem(succeeded, wav@.len(), complaints@) is None && out@ == wav@,
            Err(e) => wav_problem(succeeded, wav@.len(), complaints@) == Some(e@),
        },
{
    if !succeeded {
        let mut out = owned("ffmpeg live Opus decode failed: ");
        out.push_str(trim(complaints).as_str());
        return Err(out);
    }
    if wav.len() < 44 {
        return Err(owned("ffmpeg returned an empty live audio WAV"));
    }
    Ok(wav)
}

/// Judges what the decoder made of the stream of a window, with what it wrote
/// about it.
pub fn opus_window_to_wav(succeeded: bool, wav: Vec<u8>, complaints: &[u8]) -> (r: Result<
    Vec<u8>,
    String,
>)
    ensures
        match r {
            Ok(out) => wav_problem(succeeded, wav@.len(), lossy_text(complaints@)) is None && out@
                == wav@,
            Err(e) => wav_problem(succeeded, wav@.len(), lossy_text(complaints@)) == Some(e@),
        },
{
    let text = text_from_bytes(complaints);
    judge_wav(succeeded, wav, text.as_str())
}

/// What came of the decoding of a window.
#[derive(Debug)]
pub enum LiveDecode {
    /// It was decoded.
    Decoded,
    /// It could not be decoded, and why.
    Refused(String),
    /// The worker broke down.
    Broke(String),
}

/// Why a window was given up, and how that is counted.
#[derive(Debug)]
pub struct LiveFailure {
    pub reason: AudioFailureReason,
    pub message: String,
}

impl View for LiveFailure {
    type V = (AudioFailureReason, Seq<char>);

    open spec fn view(&self) -> (AudioFailureReason, Seq<char>) {
        (self.reason, self.message@)
    }
}

/// Why a window is given up after it was to be decoded.
pub open spec fn decode_failure(decode: LiveDecode) -> Option<(AudioFailureReason, Seq<char>)> {
    match decode {
        LiveDecode::Decoded => None,
        LiveDecode::Refused(e) => Some((AudioFailureReason::Decode, e@)),
        LiveDecode::Broke(e) => Some(
            (AudioFailureReason::Decode, "live audio decode worker failed: "@ + e@),
        ),
    }
}

/// Goes on with a window after it was to be decoded, or gives it up.
pub fn check_live_decode(decode: LiveDecode) -> (r: Option<LiveFailure>)
    ensures
        match r {
            Some(f) => decode_failure(decode) == Some(f@),
            None => decode_failure(decode) is None,
        },
{
    match decode {
        LiveDecode::Decoded => None,
        LiveDecode::Refused(e) => Some(
            LiveFailure { reason: AudioFailureReason::Decode, message: e },
        ),
        LiveDecode::Broke(e) => {
            let mut message = owned("live audio decode worker failed: ");
            message.push_str(e.as_str());
            Some(LiveFailure { reason: AudioFailureReason::Decode, message })
        },
    }
}

/// What becomes of a decoded window once the audio front end was asked: the
/// events that tell of it, or why it is given up.
pub fn process_window(t: &LiveWindowTrace, outcome: &AudioOutcome) -> (r: Result<
    Vec<EventAppend>,
    LiveFailure,
>)
    ensures
        match *outcome {
            AudioOutcome::Heard(analysis) => r is Ok && views(r->Ok_0@) == seq![
                window_event(t@, analysis.audio_duration_ms, analysis.report@),
            ] + moment_events(t@, views(analysis.observations@)),
            AudioOutcome::Refused(reason, e) => r is Err && r->Err_0@ == (reason, e@),
            AudioOutcome::Broke(e) => r is Err && r->Err_0@ == (
                AudioFailureReason::Inference,
                "live audio sidecar worker failed: "@ + e@,
            ),
        },
{
    match outcome {
        AudioOutcome::Heard(analysis) => Ok(append_live_audio_events(t, analysis)),
        AudioOutcome::Refused(reason, e) => Err(
            LiveFailure { reason: *reason, message: owned(e.as_str()) },
        ),
        AudioOutcome::Broke(e) => {
            let mut message = owned("live audio sidecar worker failed: ");
            message.push_str(e.as_str());
            Err(LiveFailure { reason: AudioFailureReason::Inference, message })
        },
    }
}

/// The ticks since a timestamp are those by which it has to be moved on, around
/// the end of the clock if need be.
pub proof fn clocks_wrap_around(now: u32, then: u32)
    ensures
        (then + ticks_since(now, then)) % 0x1_0000_0000 == now,
{
}

/// Ticks are told in whole milliseconds that have passed.
pub proof fn ticks_are_told_in_milliseconds(ticks: u32, clock_rate: u32)
    requires
        clock_rate > 0,
    ensures
        ticks_ms(ticks, clock_rate) * clock_rate <= ticks * 1000,
        ticks * 1000 < (ticks_ms(ticks, clock_rate) + 1) * clock_rate,
{
    let t = ticks as int * 1000;
    let c = clock_rate as int;
    vstd::arithmetic::div_mod::lemma_fundamental_div_mod(t, c);
    vstd::arithmetic::div_mod::lemma_mod_bound(t, c);
    assert(t / c <= t) by (nonlinear_arith)
        requires
            t >= 0,
            c >= 1,
    ;
    assert(t / c >= 0) by (nonlinear_arith)
        requires
            t >= 0,
            c >= 1,
    ;
    let q = t / c;
    assert((q + 1) * c == c * q + c) by (nonlinear_arith);
    assert(q * c == c * q) by (nonlinear_arith);
}

/// A frame goes on a track exactly if it has the same clock and, where both are
/// numbered, the next number.
pub proof fn frames_follow_by_their_numbers(t: TrackView, frame: FrameView)
    ensures
        goes_on(t, frame) <==> t.clock_rate == frame.clock_rate && (
        t.last_sequence_number is Some && frame.sequence_number is Some
            ==> frame.sequence_number->0 as int == (t.last_sequence_number->0 + 1) % 65536),
{
}

/// No frame is lost on a track that goes on: what is handed out and what is
/// kept are together the frames there were and the new one, in order, and a
/// window is handed out exactly once it is long enough. One that breaks off is
/// handed out if it had more than one frame, and begins anew with the new one.
pub proof fn frames_are_kept_or_handed_out(t: TrackView, frame: FrameView, window_ms: u64)
    ensures
        ({
            let (kept, window) = taken(t, frame, window_ms);
            let start = if t.frames.len() == 0 {
                frame.rtp_timestamp
            } else {
                t.window_start_timestamp
            };
            let long = ticks_ms(ticks_since(frame.rtp_timestamp, start), t.clock_rate) >= window_ms;
            &&& goes_on(t, frame) && !long ==> window is None && kept.frames == t.frames.push(frame)
            &&& goes_on(t, frame) && long ==> window is Some && kept.frames.len() == 0
                && window->0.frames == t.frames.push(frame) && window->0.source_start_ms
                == ticks_ms(ticks_since(start, t.anchor_timestamp), t.clock_rate)
            &&& goes_on(t, frame) ==> kept.anchor_timestamp == t.anchor_timestamp
                && kept.last_sequence_number == frame.sequence_number
            &&& !goes_on(t, frame) ==> kept.frames == seq![frame] && kept.anchor_timestamp
                == frame.rtp_timestamp && kept.window_start_timestamp == frame.rtp_timestamp
                && kept.clock_rate == frame.clock_rate
            &&& !goes_on(t, frame) ==> (window is Some <==> t.frames.len() >= 2)
            &&& !goes_on(t, frame) && window is Some ==> window->0.frames == t.frames
            &&& window is Some && t.frames.len() > 0 ==> window->0.track_id
                == t.frames[0].track_id
        }),
{
}

/// A frame changes its own track only, and one without sound or clock changes
/// none; the first of a track opens it.
pub proof fn frames_change_their_own_track(
    tracks: Seq<(u64, TrackView)>,
    frame: FrameView,
    window_ms: u64,
    i: int,
)
    requires
        0 <= i < tracks.len(),
    ensures
        ({
            let (after, window) = tracks_after(tracks, frame, window_ms);
            &&& frame.clock_rate == 0 || frame.data.len() == 0 ==> after == tracks && window is None
            &&& tracks[i].0 != frame.track_id ==> after[i] == tracks[i]
            &&& after[i].0 == tracks[i].0
            &&& frame.clock_rate > 0 && frame.data.len() > 0 && (forall|k: int|
                0 <= k < tracks.len() ==> (#[trigger] tracks[k]).0 != frame.track_id)
                ==> after.len() == tracks.len() + 1 && after.last().0 == frame.track_id
                && after.last().1.frames == seq![frame] && window is None
        }),
{
    lemma_track_is_found(tracks, frame.track_id);
}

proof fn lemma_track_is_found(tracks: Seq<(u64, TrackView)>, track_id: u64)
    ensures
        track_place(tracks, track_id) matches Some(i) ==> 0 <= i < tracks.len() && tracks[i].0
            == track_id,
        track_place(tracks, track_id) is None ==> forall|k: int|
            0 <= k < tracks.len() ==> (#[trigger] tracks[k]).0 != track_id,
    decreases tracks.len(),
{
    if tracks.len() > 0 && tracks[0].0 != track_id {
        let rest = tracks.drop_first();
        lemma_track_is_found(rest, track_id);
        if track_place(tracks, track_id) is None {
            assert forall|k: int| 0 <= k < tracks.len() implies (#[trigger] tracks[k]).0
                != track_id by {
                if k > 0 {
                    assert(rest[k - 1] == tracks[k]);
                }
            }
        }
    }
}

/// At the end, what is left of each track is handed out where it lasts a quarter
/// of a second or more, in the order of the tracks.
pub proof fn ends_of_tracks_are_handed_out(tracks: Seq<(u64, TrackView)>, track: (u64, TrackView))
    ensures
        track_ms(track.1) >= 250 ==> last_windows(tracks.push(track)) == last_windows(tracks).push(
            window_of(track.1),
        ),
        track_ms(track.1) < 250 ==> last_windows(tracks.push(track)) == last_windows(tracks),
        last_windows(Seq::empty()).len() == 0,
{
    assert(tracks.push(track).drop_last() =~= tracks);
}

/// A frame lasts until the next one, and the last as long as the one before it;
/// none lasts less than two and a half milliseconds or more than a hundred and
/// twenty.
pub proof fn frames_last_until_the_next(frames: Seq<FrameView>, i: int)
    requires
        0 <= i < frames.len(),
    ensures
        120 <= frame_ticks(frames, i) <= 5760,
        i + 1 < frames.len() && 120 <= ticks_since(
            frames[i + 1].rtp_timestamp,
            frames[i].rtp_timestamp,
        ) <= 5760 ==> frame_ticks(frames, i) == ticks_since(
            frames[i + 1].rtp_timestamp,
            frames[i].rtp_timestamp,
        ),
        frames.len() == 1 ==> frame_ticks(frames, i) == 960,
        i > 0 && i + 1 == frames.len() && 120 <= ticks_since(
            frames[i].rtp_timestamp,
            frames[i - 1].rtp_timestamp,
        ) <= 5760 ==> frame_ticks(frames, i) == ticks_since(
            frames[i].rtp_timestamp,
            frames[i - 1].rtp_timestamp,
        ),
        granule_of(frames, i) == 312 + ticks_since(
            frames[i].rtp_timestamp,
            frames[0].rtp_timestamp,
        ) + frame_ticks(frames, i),
{
}

/// Each frame with sound makes one page, numbered from two on; the last frame's
/// page ends the stream.
pub proof fn each_frame_makes_its_page(frames: Seq<FrameView>, n: int)
    requires
        0 < n <= frames.len(),
        frames.len() < 0x1_0000_0000,
    ensures
        frames[n - 1].data.len() == 0 ==> frame_pages(frames, n) == frame_pages(frames, n - 1)
            && next_page(frames, n) == next_page(frames, n - 1),
        frames[n - 1].data.len() > 0 ==> frame_pages(frames, n) == frame_pages(frames, n - 1)
            + page_of(
            frames[n - 1].data,
            granule_of(frames, n - 1),
            0x5649_4458,
            next_page(frames, n - 1),
            if n == frames.len() {
                4u8
            } else {
                0
            },
        ),
        frames[n - 1].data.len() > 0 && next_page(frames, n - 1) < u32::MAX ==> next_page(frames, n)
            == next_page(frames, n - 1) + 1,
        next_page(frames, 0) == 2,
{
}

/// A window is logged with where it was heard, when, and for how long it was
/// worked on.
pub proof fn windows_are_logged_whole(t: TraceView, audio_duration_ms: u64, report: JsonView)
    ensures
        ({
            let (kind, told) = window_event(t, audio_duration_ms, report);
            &&& kind == "semantic_chunk_inferred"@
            &&& told.text_at("request_id"@) == Some("live-audio:"@ + t.session_id)
            &&& told.text_at("session_id"@) == Some(t.session_id)
            &&& told.unsigned_at("chunk_index"@) == Some(t.chunk_index)
            &&& told.unsigned_at("track_id"@) == Some(t.track_id)
            &&& told.unsigned_at("pts_start_ms"@) == Some(t.source_start_ms)
            &&& t.source_start_ms + audio_duration_ms <= u64::MAX ==> told.unsigned_at(
                "pts_end_ms"@,
            ) == Some((t.source_start_ms + audio_duration_ms) as u64)
            &&& told.unsigned_at("rtp_access_units"@) == Some(t.frame_count)
            &&& told.unsigned_at("decode_ms"@) == Some(t.decode_ms)
            &&& told.unsigned_at("round_trip_ms"@) == Some(t.round_trip_ms)
            &&& told.get("local_audio"@) == Some(report)
        }),
{
    reveal_strlit("request_id");
    reveal_strlit("stream_id");
    reveal_strlit("session_id");
    reveal_strlit("chunk_index");
    reveal_strlit("track_id");
    reveal_strlit("provider");
    reveal_strlit("media_mode");
    reveal_strlit("pts_start_ms");
    reveal_strlit("pts_end_ms");
    reveal_strlit("timestamp_resolution_ms");
    reveal_strlit("rtp_access_units");
    reveal_strlit("decode_ms");
    reveal_strlit("round_trip_ms");
    reveal_strlit("local_audio");
    assert("request_id"@.len() == 10);
    assert("stream_id"@.len() == 9);
    assert("session_id"@.len() == 10);
    assert("chunk_index"@.len() == 11);
    assert("track_id"@.len() == 8);
    assert("provider"@.len() == 8);
    assert("media_mode"@.len() == 10);
    assert("pts_start_ms"@.len() == 12);
    assert("pts_end_ms"@.len() == 10);
    assert("timestamp_resolution_ms"@.len() == 23);
    assert("rtp_access_units"@.len() == 16);
    assert("decode_ms"@.len() == 9);
    assert("round_trip_ms"@.len() == 13);
    assert("local_audio"@.len() == 11);
    assert("request_id"@[0] == 'r' && "session_id"@[0] == 's');
    assert("request_id"@[0] == 'r' && "media_mode"@[0] == 'm');
    assert("request_id"@[0] == 'r' && "pts_end_ms"@[0] == 'p');
    assert("session_id"@[0] == 's' && "media_mode"@[0] == 'm');
    assert("session_id"@[0] == 's' && "pts_end_ms"@[0] == 'p');
    assert("media_mode"@[0] == 'm' && "pts_end_ms"@[0] == 'p');
    assert("stream_id"@[0] == 's' && "decode_ms"@[0] == 'd');
    assert("chunk_index"@[0] == 'c' && "local_audio"@[0] == 'l');
    assert("track_id"@[0] == 't' && "provider"@[0] == 'p');
    let fields = window_event(t, audio_duration_ms, report).1->Object_0;
    crate::json::field_is_found(fields, 0);
    crate::json::field_is_found(fields, 2);
    crate::json::field_is_found(fields, 3);
    crate::json::field_is_found(fields, 4);
    crate::json::field_is_found(fields, 7);
    crate::json::field_is_found(fields, 8);
    crate::json::field_is_found(fields, 10);
    crate::json::field_is_found(fields, 11);
    crate::json::field_is_found(fields, 12);
    crate::json::field_is_found(fields, 13);
}

/// A moment that was heard is logged with its own times, at its place in the
/// source.
pub proof fn heard_moments_are_logged_at_their_time(t: TraceView, moment_index: nat, o: ObservationView)
    ensures
        ({
            let (kind, told) = moment_event(t, moment_index, o);
            &&& kind == "multimodal_moment"@
            &&& told.text_at("moment_id"@) == Some(
                "live-audio:"@ + t.session_id + ":"@ + decimal(t.chunk_index as nat) + ":"@
                    + decimal(moment_index),
            )
            &&& told.unsigned_at("start_offset_ms"@) == Some(o.start_offset_ms)
            &&& told.unsigned_at("end_offset_ms"@) == Some(o.end_offset_ms)
            &&& t.source_start_ms + o.start_offset_ms <= u64::MAX ==> told.unsigned_at(
                "start_pts_ms"@,
            ) == Some((t.source_start_ms + o.start_offset_ms) as u64)
            &&& t.source_start_ms + o.end_offset_ms <= u64::MAX ==> told.unsigned_at("end_pts_ms"@)
                == Some((t.source_start_ms + o.end_offset_ms) as u64)
            &&& told.text_at("kind"@) == Some(heard_kind(o))
            &&& told.text_at("description"@) == Some(
                if o.transcript is Some && trimmed(o.transcript->0).len() > 0 {
                    "Speaker: "@ + trimmed(o.transcript->0)
                } else {
                    o.label
                },
            )
        }),
{
    reveal_strlit("moment_id");
    reveal_strlit("request_id");
    reveal_strlit("stream_id");
    reveal_strlit("session_id");
    reveal_strlit("chunk_index");
    reveal_strlit("track_id");
    reveal_strlit("start_offset_ms");
    reveal_strlit("end_offset_ms");
    reveal_strlit("start_pts_ms");
    reveal_strlit("end_pts_ms");
    reveal_strlit("timestamp_resolution_ms");
    reveal_strlit("modalities");
    reveal_strlit("kind");
    reveal_strlit("description");
    assert("moment_id"@.len() == 9);
    assert("request_id"@.len() == 10);
    assert("stream_id"@.len() == 9);
    assert("session_id"@.len() == 10);
    assert("chunk_index"@.len() == 11);
    assert("track_id"@.len() == 8);
    assert("start_offset_ms"@.len() == 15);
    assert("end_offset_ms"@.len() == 13);
    assert("start_pts_ms"@.len() == 12);
    assert("end_pts_ms"@.len() == 10);
    assert("timestamp_resolution_ms"@.len() == 23);
    assert("modalities"@.len() == 10);
    assert("kind"@.len() == 4);
    assert("description"@.len() == 11);
    assert("moment_id"@[0] == 'm' && "stream_id"@[0] == 's');
    assert("request_id"@[0] == 'r' && "session_id"@[0] == 's');
    assert("request_id"@[0] == 'r' && "end_pts_ms"@[0] == 'e');
    assert("request_id"@[0] == 'r' && "modalities"@[0] == 'm');
    assert("session_id"@[0] == 's' && "end_pts_ms"@[0] == 'e');
    assert("session_id"@[0] == 's' && "modalities"@[0] == 'm');
    assert("end_pts_ms"@[0] == 'e' && "modalities"@[0] == 'm');
    assert("chunk_index"@[0] == 'c' && "description"@[0] == 'd');
    let fields = moment_event(t, moment_index, o).1->Object_0;
    crate::json::field_is_found(fields, 0);
    crate::json::field_is_found(fields, 6);
    crate::json::field_is_found(fields, 7);
    crate::json::field_is_found(fields, 8);
    crate::json::field_is_found(fields, 9);
    crate::json::field_is_found(fields, 12);
    crate::json::field_is_found(fields, 13);
}

/// Everything that was heard and lasts is logged, in order, but for mere
/// activity of a voice.
pub proof fn each_sound_is_logged(t: TraceView, heard: Seq<ObservationView>, o: ObservationView)
    ensures
        ({
            let before = moment_events(t, heard);
            let told = o.kind != "voice_activity"@ && o.end_offset_ms > o.start_offset_ms;
            &&& told ==> moment_events(t, heard.push(o)) == before.push(
                moment_event(t, before.len(), o),
            )
            &&& !told ==> moment_events(t, heard.push(o)) == before
        }),
{
    assert(heard.push(o).drop_last() =~= heard);
}

/// What the decoder gave back is taken exactly if it ended well and wrote at
/// least the head of a file.
pub proof fn decoded_sound_has_a_head(succeeded: bool, wav_bytes: nat, complaints: Seq<char>)
    ensures
        wav_problem(succeeded, wav_bytes, complaints) is None <==> succeeded && wav_bytes >= 44,
{
}

} // verus!
