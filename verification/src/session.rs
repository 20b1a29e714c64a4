//! A session of bakes: what is running, what is shown, and what is kept.

use crate::arithmetic::{Arithmetic, Operation};
use crate::config::{BakeMode, ResolvedBakeConfig};
use crate::math::Vec3;
use crate::preview::{ImageSpec, PreviewImage, PreviewMeta};
use crate::scalar::Scalar;
use crate::stats::GpuBakeStats;
use crate::text::{decimal, push_number, push_text};
use vstd::prelude::*;

verus! {

/// Bytes that the images of the history may take up.
pub const MAX_HISTORY_BYTES: usize = 536_870_912;

/// Bytes of a color: three single-precision numbers.
pub const COLOR_BYTES: usize = 12;

/// What a progressive bake has after a batch of samples.
#[derive(Debug)]
pub struct ProgressiveFrame {
    pub completed_samples: u32,
    pub total_samples: u32,
    pub width: u32,
    pub height: u32,
    pub pixels: Vec<Vec3>,
}

/// What the bake of an atlas has after a tile.
#[derive(Debug)]
pub struct AtlasProgressFrame {
    pub completed_tiles: u32,
    pub total_tiles: u32,
    pub width: u32,
    pub height: u32,
    pub pixels: Vec<Vec3>,
}

/// Rows that a bake has finished.
#[derive(Debug)]
pub struct ProgressChunk {
    pub y_offset: u32,
    pub height: u32,
    pub width: u32,
    pub completed_rows: u32,
    pub total_rows: u32,
    pub pixels: Vec<Vec3>,
}

/// What a bake hands out at its end.
#[derive(Debug)]
pub struct GpuBakeResult {
    pub pixels: Vec<Vec3>,
    pub stats: GpuBakeStats,
}

/// What a bake reports while it runs.  The files that it has written are named
/// as they are shown.
#[derive(Debug)]
pub enum BakeEvent {
    Status(String),
    Started { width: u32, height: u32, meta: PreviewMeta, total_work: u32 },
    Frame(ProgressiveFrame),
    AtlasFrame(AtlasProgressFrame),
    Finished { stats: GpuBakeStats, image: String, manifest: String },
    Error(String),
}

/// A finished render.
#[derive(Debug)]
pub struct RenderSnapshot {
    pub image: PreviewImage,
    pub label: String,
}

/// A [`RenderSnapshot`] with its contents as sequences.
#[verifier::ext_equal]
pub struct SnapshotSpec {
    pub image: ImageSpec,
    pub label: Seq<char>,
}

impl View for RenderSnapshot {
    type V = SnapshotSpec;

    open spec fn view(&self) -> SnapshotSpec {
        SnapshotSpec { image: self.image@, label: self.label@ }
    }
}

/// How much of a bake is done: `done` parts of `whole`.
#[derive(Clone, Copy, Debug, PartialEq, Eq, Structural)]
pub struct Progress {
    pub done: u32,
    pub whole: u32,
}

/// `done` parts of `whole`, and nothing where there are no parts.
pub open spec fn progress_of(done: u32, whole: u32) -> Progress {
    if whole > 0 {
        Progress { done, whole }
    } else {
        Progress { done: 0, whole: 1 }
    }
}

/// What is running, what is shown, and what is kept.
#[derive(Debug)]
pub struct Session {
    pub baking: bool,
    pub can_cancel: bool,
    pub progress: Progress,
    pub completed_samples: u32,
    pub total_samples: u32,
    pub status: String,
    pub preview: PreviewImage,
    pub latest_bake_preview: Option<PreviewImage>,
    pub preview_dirty: bool,
    pub preview_version: u64,
    pub last_stats: Option<GpuBakeStats>,
    pub history: Vec<RenderSnapshot>,
    pub history_index: i32,
    pub follow_latest: bool,
}

/// A [`Session`] with its contents as sequences.
#[verifier::ext_equal]
pub struct SessionSpec {
    pub baking: bool,
    pub can_cancel: bool,
    pub progress: Progress,
    pub completed_samples: u32,
    pub total_samples: u32,
    pub status: Seq<char>,
    pub preview: ImageSpec,
    pub latest_bake_preview: Option<ImageSpec>,
    pub preview_dirty: bool,
    pub preview_version: u64,
    pub last_stats: Option<GpuBakeStats>,
    pub history: Seq<SnapshotSpec>,
    pub history_index: int,
    pub follow_latest: bool,
}

/// The views of the snapshots of a history.
pub open spec fn history_view(history: Seq<RenderSnapshot>) -> Seq<SnapshotSpec> {
    history.map_values(|snapshot: RenderSnapshot| snapshot@)
}

impl View for Session {
    type V = SessionSpec;

    open spec fn view(&self) -> SessionSpec {
        SessionSpec {
            baking: self.baking,
            can_cancel: self.can_cancel,
            progress: self.progress,
            completed_samples: self.completed_samples,
            total_samples: self.total_samples,
            status: self.status@,
            preview: self.preview@,
            latest_bake_preview: match self.latest_bake_preview {
                Some(image) => Some(image@),
                None => None,
            },
            preview_dirty: self.preview_dirty,
            preview_version: self.preview_version,
            last_stats: self.last_stats,
            history: history_view(self.history@),
            history_index: self.history_index as int,
            follow_latest: self.follow_latest,
        }
    }
}

/// Bytes of an image.
pub open spec fn image_bytes(image: ImageSpec) -> int {
    image.rgb.len() * COLOR_BYTES + image.rgba.len()
}

/// Bytes of the images of a history.
pub open spec fn bytes_of_history(history: Seq<SnapshotSpec>) -> int
    decreases history.len(),
{
    if history.len() == 0 {
        0
    } else {
        bytes_of_history(history.drop_last()) + image_bytes(history.last().image)
    }
}

/// How many of the oldest snapshots have to go for the rest to fit, keeping at
/// least one.
pub open spec fn evictions(history: Seq<SnapshotSpec>, max_bytes: int) -> nat
    decreases history.len(),
{
    if history.len() > 1 && bytes_of_history(history) > max_bytes {
        evictions(history.drop_first(), max_bytes) + 1
    } else {
        0
    }
}

/// An index after some of the oldest snapshots have gone; before the first
/// snapshot when its own has.
pub open spec fn index_after(index: int, gone: nat) -> int {
    if index - gone < -1 {
        -1
    } else {
        index - gone
    }
}

impl SessionSpec {
    /// The index points at a snapshot or before the first one, and the images
    /// are whole.
    pub open spec fn wf(self) -> bool {
        &&& -1 <= self.history_index < self.history.len() <= i32::MAX
        &&& self.preview.wf()
        &&& self.latest_bake_preview is Some ==> self.latest_bake_preview.unwrap().wf()
        &&& forall|i: int|
            0 <= i < self.history.len() ==> (#[trigger] self.history[i]).image.wf()
    }

    /// The session with the oldest snapshots gone that do not fit.
    pub open spec fn trimmed(self, max_bytes: int) -> SessionSpec {
        let gone = evictions(self.history, max_bytes);
        SessionSpec {
            history: self.history.skip(gone as int),
            history_index: index_after(self.history_index, gone),
            ..self
        }
    }

    /// The session with one more snapshot, which is shown where the latest is
    /// followed or nothing is selected.
    pub open spec fn pushed(self, snapshot: SnapshotSpec) -> SessionSpec {
        let kept = SessionSpec { history: self.history.push(snapshot), ..self }.trimmed(
            MAX_HISTORY_BYTES as int,
        );
        if self.follow_latest || kept.history_index < 0 {
            SessionSpec {
                history_index: kept.history.len() - 1,
                preview: kept.history.last().image,
                preview_dirty: true,
                ..kept
            }
        } else {
            kept
        }
    }

    /// The session with a snapshot selected, the nearest one where there is none
    /// at the index.
    pub open spec fn selected(self, index: int) -> SessionSpec {
        if self.history.len() == 0 {
            SessionSpec { history_index: -1, ..self }
        } else {
            let nearest = if index < 0 {
                0
            } else if index >= self.history.len() {
                self.history.len() - 1
            } else {
                index
            };
            SessionSpec {
                history_index: nearest,
                follow_latest: nearest == self.history.len() - 1,
                preview: self.history[nearest].image,
                preview_dirty: true,
                ..self
            }
        }
    }

    /// The session with nothing kept or shown.
    pub open spec fn cleared(self) -> SessionSpec {
        SessionSpec {
            history: Seq::empty(),
            history_index: -1,
            follow_latest: true,
            preview: ImageSpec::nothing(),
            preview_dirty: true,
            ..self
        }
    }

    /// The session with an image from a running bake, which is shown where the
    /// latest is followed or nothing is kept.
    pub open spec fn with_frame(
        self,
        image: ImageSpec,
        done: u32,
        whole: u32,
        status: Seq<char>,
    ) -> SessionSpec {
        let shown = self.follow_latest || self.history.len() == 0;
        SessionSpec {
            preview: if shown {
                image
            } else {
                self.preview
            },
            preview_dirty: self.preview_dirty || shown,
            latest_bake_preview: Some(image),
            completed_samples: done,
            total_samples: whole,
            progress: progress_of(done, whole),
            status,
            ..self
        }
    }

    /// The image of the running bake, which may be another one than is shown.
    pub open spec fn bake_image(self) -> ImageSpec {
        match self.latest_bake_preview {
            Some(latest) => latest,
            None => self.preview,
        }
    }

    /// What a finished render is called.
    pub open spec fn finished_label(self) -> Seq<char> {
        decimal(self.total_samples as nat) + if self.bake_image().meta.mode == BakeMode::Single {
            " samples"@
        } else {
            " light tiles"@
        }
    }

    /// The session after an event.
    pub open spec fn after(
        self,
        event: BakeEvent,
        tone: spec_fn(Scalar, Scalar) -> u8,
    ) -> SessionSpec {
        match event {
            BakeEvent::Status(status) => SessionSpec { status: status@, ..self },
            BakeEvent::Started { width, height, meta, total_work } => SessionSpec {
                preview: ImageSpec::blank(width, height, meta),
                latest_bake_preview: Some(ImageSpec::blank(width, height, meta)),
                preview_dirty: true,
                total_samples: total_work,
                completed_samples: 0,
                progress: Progress { done: 0, whole: 1 },
                status: "Baking"@,
                ..self
            },
            BakeEvent::Frame(frame) => self.with_frame(
                ImageSpec::of_pixels(
                    frame.width,
                    frame.height,
                    frame.pixels@,
                    self.bake_image().meta,
                    tone,
                ),
                frame.completed_samples,
                frame.total_samples,
                counted_status(
                    "Baking samples "@,
                    frame.completed_samples,
                    frame.total_samples,
                ),
            ),
            BakeEvent::AtlasFrame(frame) => self.with_frame(
                ImageSpec::of_pixels(
                    frame.width,
                    frame.height,
                    frame.pixels@,
                    self.bake_image().meta,
                    tone,
                ),
                frame.completed_tiles,
                frame.total_tiles,
                counted_status(
                    "Baking atlas tile "@,
                    frame.completed_tiles,
                    frame.total_tiles,
                ),
            ),
            BakeEvent::Finished { stats, image, manifest } => {
                let ended = SessionSpec {
                    baking: false,
                    can_cancel: false,
                    progress: Progress { done: 1, whole: 1 },
                    completed_samples: self.total_samples,
                    last_stats: Some(stats),
                    latest_bake_preview: None,
                    ..self
                };
                SessionSpec {
                    status: "Wrote "@ + image@ + " and "@ + manifest@,
                    ..ended.pushed(SnapshotSpec { image: self.bake_image(), label: self.finished_label() })
                }
            },
            BakeEvent::Error(error) => SessionSpec {
                baking: false,
                can_cancel: false,
                latest_bake_preview: None,
                status: error@,
                ..self
            },
        }
    }
}

/// A status that counts parts.
pub open spec fn counted_status(text: Seq<char>, done: u32, whole: u32) -> Seq<char> {
    text + decimal(done as nat) + " / "@ + decimal(whole as nat)
}

/// A status that counts parts.
fn counted(text: &str, done: u32, whole: u32) -> (status: String)
    ensures
        status@ == counted_status(text@, done, whole),
{
    let mut status = text.to_owned();
    push_number(&mut status, done as u64);
    push_text(&mut status, " / ");
    push_number(&mut status, whole as u64);
    status
}

/// How far a bake has come, in words.
pub fn progress_label(mode: BakeMode, completed: u32, total: u32) -> (label: String)
    ensures
        label@ == decimal(completed as nat) + " / "@ + decimal(total as nat) + if mode
            == BakeMode::Single {
            " samples"@
        } else {
            " tiles"@
        },
{
    let mut label = String::new();
    push_number(&mut label, completed as u64);
    push_text(&mut label, " / ");
    push_number(&mut label, total as u64);
    if mode == BakeMode::Single {
        push_text(&mut label, " samples");
    } else {
        push_text(&mut label, " tiles");
    }
    assert(label@ =~= decimal(completed as nat) + " / "@ + decimal(total as nat) + if mode
        == BakeMode::Single {
        " samples"@
    } else {
        " tiles"@
    });
    label
}

/// The parts that the progress of a bake is counted in: samples of a single
/// image, else tiles.
pub fn total_work(config: &ResolvedBakeConfig) -> (work: u32)
    requires
        config.lights() <= u32::MAX,
    ensures
        work == if config.mode == BakeMode::Single {
            config.samples as int
        } else {
            config.lights()
        },
        config.mode == BakeMode::Full ==> work == config.light_width * config.light_height,
        config.mode == BakeMode::Isotropic ==> work == config.light_width * config.light_height,
{
    if config.mode == BakeMode::Single {
        config.samples
    } else {
        config.light_count()
    }
}

/// Whether a bake hands out a single image again and again while it runs,
/// rather than an atlas tile by tile.
pub fn is_progressive(config: &ResolvedBakeConfig) -> (progressive: bool)
    ensures
        progressive == (config.mode == BakeMode::Single),
{
    config.mode == BakeMode::Single
}

/// Ticks that are drawn for a history at most.
pub const MAX_TICKS: usize = 96;

/// How many snapshots a tick stands for.
pub open spec fn tick_step(count: int) -> int {
    let step = crate::dispatch::ceil_div(count, MAX_TICKS as int);
    if step < 1 {
        1
    } else {
        step
    }
}

/// The snapshots of a history that get a tick.
pub fn history_ticks(count: usize) -> (ticks: Vec<usize>)
    ensures
        ticks@.len() == crate::dispatch::ceil_div(count as int, tick_step(count as int)),
        ticks@.len() <= MAX_TICKS,
        forall|i: int|
            0 <= i < ticks@.len() ==> #[trigger] ticks@[i] == i * tick_step(count as int)
                && ticks@[i] < count,
{
    let whole: usize = count / MAX_TICKS;
    let step: usize = if count == 0 {
        1
    } else if count % MAX_TICKS > 0 {
        whole + 1
    } else {
        whole
    };
    assert(step == tick_step(count as int));
    let full: usize = count / step;
    proof {
        vstd::arithmetic::div_mod::lemma_fundamental_div_mod(count as int, step as int);
        assert(count % step > 0 ==> full < count) by (nonlinear_arith)
            requires
                count == step * full + count % step,
                step > 0,
        ;
    }
    let total: usize = if count % step > 0 {
        full + 1
    } else {
        full
    };
    proof {
        crate::dispatch::lemma_ceil_div(count as int, step as int);
        let all = crate::dispatch::ceil_div(count as int, step as int);
        assert(count <= total * step < count + step) by (nonlinear_arith)
            requires
                count == step * full + count % step,
                0 <= count % step < step,
                count % step > 0 ==> total == full + 1,
                count % step == 0 ==> total == full,
        ;
        assert(total == all && all <= 96) by (nonlinear_arith)
            requires
                all * step < count + step,
                count <= all * step,
                count <= total * step < count + step,
                count <= step * 96,
                step > 0,
        ;
    }
    let mut ticks: Vec<usize> = Vec::new();
    let mut next: usize = 0;
    while next < total
        invariant
            step > 0,
            step == tick_step(count as int),
            total * step < count + step,
            ticks@.len() == next <= total,
            forall|i: int|
                0 <= i < ticks@.len() ==> #[trigger] ticks@[i] == i * step && ticks@[i] < count,
        decreases total - next,
    {
        assert(0 <= next * step < count) by (nonlinear_arith)
            requires
                next < total,
                total * step < count + step,
                step > 0,
        ;
        ticks.push(next * step);
        next += 1;
    }
    ticks
}

proof fn lemma_history_bytes_drop_first(history: Seq<SnapshotSpec>)
    requires
        history.len() > 0,
    ensures
        bytes_of_history(history) == image_bytes(history[0].image) + bytes_of_history(
            history.drop_first(),
        ),
    decreases history.len(),
{
    if history.len() > 1 {
        lemma_history_bytes_drop_first(history.drop_last());
        assert(history.drop_last().drop_first() =~= history.drop_first().drop_last());
    } else {
        assert(history.drop_last() =~= Seq::empty());
        assert(history.drop_first() =~= Seq::empty());
    }
}

proof fn lemma_history_bytes_nonnegative(history: Seq<SnapshotSpec>)
    ensures
        bytes_of_history(history) >= 0,
    decreases history.len(),
{
    if history.len() > 0 {
        lemma_history_bytes_nonnegative(history.drop_last());
    }
}

/// Dropping the oldest snapshots as planned leaves at least one, and what is
/// left fits unless it is a single snapshot; and no more are dropped than
/// necessary.
pub proof fn lemma_trimming_fits_the_budget(history: Seq<SnapshotSpec>, max_bytes: int)
    requires
        history.len() > 0,
    ensures
        evictions(history, max_bytes) < history.len(),
        history.skip(evictions(history, max_bytes) as int).len() == 1 || bytes_of_history(
            history.skip(evictions(history, max_bytes) as int),
        ) <= max_bytes,
        forall|gone: int|
            0 <= gone < evictions(history, max_bytes) ==> bytes_of_history(
                #[trigger] history.skip(gone),
            ) > max_bytes,
    decreases history.len(),
{
    if history.len() > 1 && bytes_of_history(history) > max_bytes {
        let rest = history.drop_first();
        lemma_trimming_fits_the_budget(rest, max_bytes);
        let gone = evictions(rest, max_bytes) as int;
        assert(history.skip(gone + 1) =~= rest.skip(gone));
        assert forall|g: int|
            0 <= g < evictions(history, max_bytes) implies bytes_of_history(
            #[trigger] history.skip(g),
        ) > max_bytes by {
            if g == 0 {
                assert(history.skip(0) =~= history);
            } else {
                assert(history.skip(g) =~= rest.skip(g - 1));
            }
        }
    } else {
        assert(history.skip(0) =~= history);
    }
}

/// The newest snapshot is always kept, and a selected snapshot that is kept
/// stays selected.
pub proof fn lemma_newest_is_kept(session: SessionSpec, snapshot: SnapshotSpec)
    requires
        session.wf(),
    ensures
        session.pushed(snapshot).history.len() > 0,
        session.pushed(snapshot).history.last() == snapshot,
        session.follow_latest ==> session.pushed(snapshot).preview == snapshot.image,
        !session.follow_latest && session.pushed(snapshot).history_index >= 0
            && session.history_index - evictions(
            session.history.push(snapshot),
            MAX_HISTORY_BYTES as int,
        ) >= 0 ==> session.pushed(snapshot).history[session.pushed(snapshot).history_index]
            == session.history[session.history_index],
{
    lemma_trimming_fits_the_budget(session.history.push(snapshot), MAX_HISTORY_BYTES as int);
}

/// A bake keeps the layout that it was started with, whatever is selected,
/// loaded or cleared meanwhile, and the finished render is kept with that layout
/// and called by its mode.
pub proof fn lemma_bakes_keep_their_layout(
    session: SessionSpec,
    event: BakeEvent,
    tone: spec_fn(Scalar, Scalar) -> u8,
    index: int,
    other: SnapshotSpec,
    meta: PreviewMeta,
)
    requires
        session.wf(),
        session.latest_bake_preview is Some,
        session.latest_bake_preview.unwrap().meta == meta,
    ensures
        session.selected(index).latest_bake_preview == session.latest_bake_preview,
        session.cleared().latest_bake_preview == session.latest_bake_preview,
        session.pushed(other).latest_bake_preview == session.latest_bake_preview,
        event is Status || event is Frame || event is AtlasFrame ==> {
            let after = session.after(event, tone);
            after.latest_bake_preview is Some && after.latest_bake_preview.unwrap().meta == meta
        },
        event is Finished ==> {
            let kept = session.after(event, tone).history.last();
            &&& kept.image == session.latest_bake_preview.unwrap()
            &&& kept.image.meta == meta
            &&& kept.label == decimal(session.total_samples as nat) + if meta.mode
                == BakeMode::Single {
                " samples"@
            } else {
                " light tiles"@
            }
        },
{
    let kept = SnapshotSpec { image: session.bake_image(), label: session.finished_label() };
    lemma_trimming_fits_the_budget(session.history.push(kept), MAX_HISTORY_BYTES as int);
}

/// Whether an image of this size can be held.
pub open spec fn size_fits(width: u32, height: u32) -> bool {
    4 * (width * height) <= usize::MAX
}

/// Whether the images of an event can be held.
pub open spec fn event_fits(event: BakeEvent) -> bool {
    match event {
        BakeEvent::Started { width, height, .. } => size_fits(width, height),
        BakeEvent::Frame(frame) => size_fits(frame.width, frame.height),
        BakeEvent::AtlasFrame(frame) => size_fits(frame.width, frame.height),
        _ => true,
    }
}

/// Whether one more image can be kept: the number of snapshots and their bytes
/// can still be counted.
pub open spec fn can_keep(history: Seq<SnapshotSpec>, image: ImageSpec) -> bool {
    &&& history.len() < i32::MAX
    &&& bytes_of_history(history) + image_bytes(image) <= usize::MAX
}

impl Default for Session {
    fn default() -> (session: Session)
        ensures
            session@ == (SessionSpec {
                baking: false,
                can_cancel: false,
                progress: Progress { done: 0, whole: 1 },
                completed_samples: 0,
                total_samples: 0,
                status: "Idle"@,
                preview: ImageSpec::nothing(),
                latest_bake_preview: None,
                preview_dirty: false,
                preview_version: 0,
                last_stats: None,
                history: Seq::empty(),
                history_index: -1,
                follow_latest: true,
            }),
            session@.wf(),
    {
        let session = Session {
            baking: false,
            can_cancel: false,
            progress: Progress { done: 0, whole: 1 },
            completed_samples: 0,
            total_samples: 0,
            status: "Idle".to_owned(),
            preview: PreviewImage::default(),
            latest_bake_preview: None,
            preview_dirty: false,
            preview_version: 0,
            last_stats: None,
            history: Vec::new(),
            history_index: -1,
            follow_latest: true,
        };
        assert(session@.history =~= Seq::<SnapshotSpec>::empty());
        session
    }
}

impl Session {
    /// Takes note of a bake that starts, unless one is running already.
    pub fn start_bake(&mut self) -> (started: bool)
        requires
            old(self)@.wf(),
        ensures
            final(self)@.wf(),
            started == !old(self).baking,
            old(self).baking ==> final(self)@ == old(self)@,
            !old(self).baking ==> final(self)@ == (SessionSpec {
                baking: true,
                can_cancel: true,
                progress: Progress { done: 0, whole: 1 },
                completed_samples: 0,
                total_samples: 0,
                last_stats: None,
                latest_bake_preview: None,
                status: "Starting bake"@,
                follow_latest: true,
                ..old(self)@
            }),
    {
        if self.baking {
            return false;
        }
        self.can_cancel = true;
        self.baking = true;
        self.progress = Progress { done: 0, whole: 1 };
        self.completed_samples = 0;
        self.total_samples = 0;
        self.last_stats = None;
        self.latest_bake_preview = None;
        self.status = "Starting bake".to_owned();
        self.follow_latest = true;
        true
    }

    /// Asks for the running bake to be cancelled.  Tells whether there is one.
    pub fn cancel_bake(&mut self) -> (cancel: bool)
        requires
            old(self)@.wf(),
        ensures
            final(self)@.wf(),
            cancel == old(self).can_cancel,
            final(self)@ == if old(self).can_cancel {
                SessionSpec { status: "Cancelling bake"@, ..old(self)@ }
            } else {
                old(self)@
            },
    {
        if self.can_cancel {
            self.status = "Cancelling bake".to_owned();
        }
        self.can_cancel
    }

    /// Takes note of an event.  Tells whether more events are to come.
    pub fn receive<F: Fn(Operation, Scalar, Scalar) -> Scalar, N: Fn(Vec3) -> Option<Vec3>>(
        &mut self,
        event: BakeEvent,
        math: &Arithmetic<F, N>,
    ) -> (more: bool)
        requires
            old(self)@.wf(),
            math.wf(),
            event_fits(event),
            event is Finished ==> can_keep(old(self)@.history, old(self)@.bake_image()),
        ensures
            final(self)@.wf(),
            final(self)@ == old(self)@.after(event, math.model().tones()),
            more == !(event is Finished || event is Error),
    {
        let ghost before = self@;
        match event {
            BakeEvent::Status(status) => {
                self.status = status;
                true
            },
            BakeEvent::Started { width, height, meta, total_work } => {
                self.preview = PreviewImage::new(width, height, meta);
                self.latest_bake_preview = Some(self.preview.copy());
                self.preview_dirty = true;
                self.total_samples = total_work;
                self.completed_samples = 0;
                self.progress = Progress { done: 0, whole: 1 };
                self.status = "Baking".to_owned();
                true
            },
            BakeEvent::Frame(frame) => {
                let image = PreviewImage::from_pixels(
                    frame.width,
                    frame.height,
                    &frame.pixels,
                    self.bake_meta(),
                    math,
                );
                let status = counted(
                    "Baking samples ",
                    frame.completed_samples,
                    frame.total_samples,
                );
                self.show_frame(image, frame.completed_samples, frame.total_samples, status);
                true
            },
            BakeEvent::AtlasFrame(frame) => {
                let image = PreviewImage::from_pixels(
                    frame.width,
                    frame.height,
                    &frame.pixels,
                    self.bake_meta(),
                    math,
                );
                let status = counted(
                    "Baking atlas tile ",
                    frame.completed_tiles,
                    frame.total_tiles,
                );
                self.show_frame(image, frame.completed_tiles, frame.total_tiles, status);
                true
            },
            BakeEvent::Finished { stats, image, manifest } => {
                self.baking = false;
                self.can_cancel = false;
                self.progress = Progress { done: 1, whole: 1 };
                self.completed_samples = self.total_samples;
                self.last_stats = Some(stats);
                let mut label = String::new();
                push_number(&mut label, self.total_samples as u64);
                if self.bake_meta().mode == BakeMode::Single {
                    push_text(&mut label, " samples");
                } else {
                    push_text(&mut label, " light tiles");
                }
                assert(label@ =~= before.finished_label());
                let latest = self.latest_bake_preview.take();
                let kept = match latest {
                    Some(latest) => latest,
                    None => self.preview.copy(),
                };
                self.push_history(RenderSnapshot { image: kept, label });
                let mut status = "Wrote ".to_owned();
                push_text(&mut status, image.as_str());
                push_text(&mut status, " and ");
                push_text(&mut status, manifest.as_str());
                self.status = status;
                false
            },
            BakeEvent::Error(error) => {
                self.baking = false;
                self.can_cancel = false;
                self.latest_bake_preview = None;
                self.status = error;
                false
            },
        }
    }

    /// The layout of the image of the running bake.
    fn bake_meta(&self) -> (meta: PreviewMeta)
        ensures
            meta == self@.bake_image().meta,
    {
        match &self.latest_bake_preview {
            Some(latest) => latest.meta,
            None => self.preview.meta,
        }
    }

    /// Takes note of an image from a running bake.
    fn show_frame(&mut self, image: PreviewImage, done: u32, whole: u32, status: String)
        requires
            old(self)@.wf(),
            image@.wf(),
        ensures
            final(self)@.wf(),
            final(self)@ == old(self)@.with_frame(image@, done, whole, status@),
    {
        if self.follow_latest || self.history.len() == 0 {
            self.preview = image.copy();
            self.preview_dirty = true;
        }
        self.latest_bake_preview = Some(image);
        self.completed_samples = done;
        self.total_samples = whole;
        self.progress =
        if whole > 0 {
            Progress { done, whole }
        } else {
            Progress { done: 0, whole: 1 }
        };
        self.status = status;
    }

    /// Bytes of the images of the history.
    pub fn history_bytes(&self) -> (bytes: usize)
        requires
            bytes_of_history(self@.history) <= usize::MAX,
        ensures
            bytes == bytes_of_history(self@.history),
    {
        let ghost all = self@.history;
        let mut bytes: usize = 0;
        let mut next: usize = 0;
        while next < self.history.len()
            invariant
                all == self@.history,
                bytes_of_history(all) <= usize::MAX,
                next <= self.history@.len(),
                bytes == bytes_of_history(all.take(next as int)),
            decreases self.history@.len() - next,
        {
            proof {
                assert(all.take(next + 1).drop_last() =~= all.take(next as int));
                lemma_history_bytes_grow(all, next + 1);
                assert(all[next as int] == self.history@[next as int]@);
            }
            let snapshot = &self.history[next];
            let size: usize = snapshot.image.rgb.len() * COLOR_BYTES + snapshot.image.rgba.len();
            bytes = bytes + size;
            next += 1;
        }
        assert(all.take(next as int) =~= all);
        bytes
    }

    /// Drops the oldest snapshots until the rest fits, keeping at least one.
    pub fn trim_history(&mut self, max_bytes: usize)
        requires
            old(self)@.wf(),
            bytes_of_history(old(self)@.history) <= usize::MAX,
        ensures
            final(self)@.wf(),
            final(self)@ == old(self)@.trimmed(max_bytes as int),
    {
        let ghost before = self@;
        assert(before.history.skip(0) =~= before.history);
        loop
            invariant
                before.wf(),
                self@.wf(),
                bytes_of_history(self@.history) <= usize::MAX,
                evictions(self@.history, max_bytes as int) <= evictions(
                    before.history,
                    max_bytes as int,
                ),
                ({
                    let gone = (evictions(before.history, max_bytes as int) - evictions(
                        self@.history,
                        max_bytes as int,
                    )) as nat;
                    &&& gone <= before.history.len()
                    &&& self@ == (SessionSpec {
                        history: before.history.skip(gone as int),
                        history_index: index_after(before.history_index, gone),
                        ..before
                    })
                }),
            ensures
                evictions(self@.history, max_bytes as int) == 0,
            decreases self@.history.len(),
        {
            if self.history.len() <= 1 || self.history_bytes() <= max_bytes {
                break ;
            }
            let ghost so_far = self@;
            proof {
                lemma_history_bytes_drop_first(so_far.history);
                assert(so_far.history.drop_first() =~= so_far.history.skip(1));
            }
            self.history.remove(0);
            self.history_index =
            if self.history_index - 1 < -1 {
                -1
            } else {
                self.history_index - 1
            };
            proof {
                assert(self@.history =~= so_far.history.drop_first());
                let gone = (evictions(before.history, max_bytes as int) - evictions(
                    so_far.history,
                    max_bytes as int,
                )) as nat;
                assert(so_far.history.drop_first() =~= before.history.skip(gone as int + 1));
            }
        }
        assert(self@ =~= before.trimmed(max_bytes as int));
    }

    /// Keeps a snapshot.  It is shown where the latest is followed or nothing is
    /// selected; the oldest snapshots go where the budget is exceeded.
    pub fn push_history(&mut self, snapshot: RenderSnapshot)
        requires
            old(self)@.wf(),
            snapshot@.image.wf(),
            can_keep(old(self)@.history, snapshot@.image),
        ensures
            final(self)@.wf(),
            final(self)@ == old(self)@.pushed(snapshot@),
    {
        let ghost before = self@;
        let ghost added = snapshot@;
        self.history.push(snapshot);
        proof {
            assert(self@.history =~= before.history.push(added));
            assert(before.history.push(added).drop_last() =~= before.history);
            lemma_trimming_fits_the_budget(self@.history, MAX_HISTORY_BYTES as int);
        }
        self.trim_history(MAX_HISTORY_BYTES);
        if self.follow_latest || self.history_index < 0 {
            let last: usize = self.history.len() - 1;
            self.history_index = last as i32;
            assert(self@.history[last as int] == self.history@[last as int]@);
            self.preview = self.history[last].image.copy();
            self.preview_dirty = true;
        }
        assert(self@ =~= before.pushed(added));
    }

    /// Selects a snapshot, the nearest one where there is none at the index.
    pub fn select_history(&mut self, index: i32)
        requires
            old(self)@.wf(),
        ensures
            final(self)@.wf(),
            final(self)@ == old(self)@.selected(index as int),
    {
        if self.history.len() == 0 {
            self.history_index = -1;
            return ;
        }
        let last: i32 = self.history.len() as i32 - 1;
        let nearest: i32 = if index < 0 {
            0
        } else if index > last {
            last
        } else {
            index
        };
        self.history_index = nearest;
        self.follow_latest = nearest == last;
        assert(self@.history[nearest as int] == self.history@[nearest as int]@);
        self.preview = self.history[nearest as usize].image.copy();
        self.preview_dirty = true;
    }

    /// Forgets all snapshots and shows nothing.
    pub fn clear_history(&mut self)
        requires
            old(self)@.wf(),
        ensures
            final(self)@.wf(),
            final(self)@ == old(self)@.cleared(),
    {
        self.history = Vec::new();
        self.history_index = -1;
        self.follow_latest = true;
        self.preview = PreviewImage::default();
        self.preview_dirty = true;
        assert(self@.history =~= Seq::<SnapshotSpec>::empty());
    }

    /// Shows and keeps an atlas that was read from a file.
    pub fn accept_loaded(&mut self, image: PreviewImage, path: &str)
        requires
            old(self)@.wf(),
            image@.wf(),
            can_keep(old(self)@.history, image@),
        ensures
            final(self)@.wf(),
            final(self)@ == (SessionSpec {
                status: "Loaded current atlas "@ + path@,
                ..(SessionSpec { preview: image@, preview_dirty: true, ..old(self)@ }).pushed(
                    SnapshotSpec { image: image@, label: "loaded atlas"@ },
                )
            }),
    {
        self.preview = image.copy();
        self.preview_dirty = true;
        self.push_history(RenderSnapshot { image, label: "loaded atlas".to_owned() });
        let mut status = "Loaded current atlas ".to_owned();
        push_text(&mut status, path);
        self.status = status;
    }

    /// Hands out whether the shown image has changed, and counts the change.
    pub fn take_preview_change(&mut self) -> (changed: bool)
        requires
            old(self)@.wf(),
        ensures
            final(self)@.wf(),
            changed == old(self).preview_dirty,
            final(self)@ == if old(self).preview_dirty {
                SessionSpec {
                    preview_dirty: false,
                    preview_version: if old(self).preview_version == u64::MAX {
                        0
                    } else {
                        (old(self).preview_version + 1) as u64
                    },
                    ..old(self)@
                }
            } else {
                old(self)@
            },
    {
        if !self.preview_dirty {
            return false;
        }
        self.preview_version =
        if self.preview_version == u64::MAX {
            0
        } else {
            self.preview_version + 1
        };
        self.preview_dirty = false;
        true
    }
}

/// The bytes of the first snapshots are no more than those of all.
proof fn lemma_history_bytes_grow(history: Seq<SnapshotSpec>, n: int)
    requires
        0 <= n <= history.len(),
    ensures
        0 <= bytes_of_history(history.take(n)) <= bytes_of_history(history),
    decreases history.len(),
{
    lemma_history_bytes_nonnegative(history.take(n));
    if n < history.len() {
        lemma_history_bytes_grow(history.drop_last(), n);
        assert(history.drop_last().take(n) =~= history.take(n));
    } else {
        assert(history.take(n) =~= history);
    }
}

/// What is kept of a session whatever a bake reports: the selection, what is kept, whether
/// the latest is followed, and how often the shown image has changed.
pub open spec fn keeps_history(before: SessionSpec, after: SessionSpec) -> bool {
    &&& after.history == before.history
    &&& after.history_index == before.history_index
    &&& after.follow_latest == before.follow_latest
    &&& after.preview_version == before.preview_version
}

/// What is kept of what runs: whether a bake is running and can be cancelled, and what the
/// last one did.
pub open spec fn keeps_running(before: SessionSpec, after: SessionSpec) -> bool {
    &&& after.baking == before.baking
    &&& after.can_cancel == before.can_cancel
    &&& after.last_stats == before.last_stats
}

/// A bake that starts shows a black image of its size and layout and begins to count; a
/// status changes the status alone; an error ends the bake and leaves what is shown and kept.
pub proof fn lemma_bakes_start_and_fail(
    session: SessionSpec,
    event: BakeEvent,
    tone: spec_fn(Scalar, Scalar) -> u8,
)
    ensures
        event matches BakeEvent::Status(text) ==> {
            let after = session.after(event, tone);
            &&& after.status == text@
            &&& keeps_history(session, after) && keeps_running(session, after)
            &&& after.preview == session.preview
            &&& after.preview_dirty == session.preview_dirty
            &&& after.latest_bake_preview == session.latest_bake_preview
            &&& after.progress == session.progress
            &&& after.completed_samples == session.completed_samples
            &&& after.total_samples == session.total_samples
        },
        event matches BakeEvent::Started { width, height, meta, total_work } ==> {
            let after = session.after(event, tone);
            &&& keeps_history(session, after) && keeps_running(session, after)
            &&& after.preview.width == width
            &&& after.preview.height == height
            &&& after.preview.meta == meta
            &&& after.preview.rgb.len() == width * height
            &&& forall|i: int|
                0 <= i < after.preview.rgb.len() ==> (#[trigger] after.preview.rgb[i]).x.bits == 0
                    && after.preview.rgb[i].y.bits == 0 && after.preview.rgb[i].z.bits == 0
            &&& after.latest_bake_preview == Some(after.preview)
            &&& after.preview_dirty
            &&& after.total_samples == total_work
            &&& after.completed_samples == 0
            &&& after.progress.done == 0
            &&& after.progress.whole == 1
            &&& after.status == "Baking"@
        },
        event matches BakeEvent::Error(error) ==> {
            let after = session.after(event, tone);
            &&& keeps_history(session, after)
            &&& !after.baking
            &&& !after.can_cancel
            &&& after.latest_bake_preview is None
            &&& after.status == error@
            &&& after.preview == session.preview
            &&& after.preview_dirty == session.preview_dirty
            &&& after.last_stats == session.last_stats
            &&& after.progress == session.progress
            &&& after.completed_samples == session.completed_samples
            &&& after.total_samples == session.total_samples
        },
{
    assert(event matches BakeEvent::Started { width, height, meta, total_work } ==> 0 <= width
        * height) by {
        if let BakeEvent::Started { width, height, meta, total_work } = event {
            assert(0 <= width * height) by (nonlinear_arith);
        }
    }
}

/// Whether an image from a running bake was taken in: it has the size and the pixels that
/// the bake reports and the layout that the bake started with, it is shown where the latest
/// is followed or nothing is kept, and the parts that are done are counted.
pub open spec fn takes_frame(
    before: SessionSpec,
    after: SessionSpec,
    width: u32,
    height: u32,
    pixels: Seq<Vec3>,
    done: u32,
    whole: u32,
) -> bool {
    let meta = match before.latest_bake_preview {
        Some(latest) => latest.meta,
        None => before.preview.meta,
    };
    let shown = before.follow_latest || before.history.len() == 0;
    let image = after.latest_bake_preview.unwrap();
    &&& keeps_history(before, after) && keeps_running(before, after)
    &&& after.latest_bake_preview is Some
    &&& image.width == width
    &&& image.height == height
    &&& image.meta == meta
    &&& image.rgb.len() == width * height
    &&& forall|i: int|
        0 <= i < image.rgb.len() && i < pixels.len() ==> #[trigger] image.rgb[i] == pixels[i]
    &&& shown ==> after.preview == image && after.preview_dirty
    &&& !shown ==> after.preview == before.preview && after.preview_dirty == before.preview_dirty
    &&& after.completed_samples == done
    &&& after.total_samples == whole
    &&& whole > 0 ==> after.progress.done == done && after.progress.whole == whole
    &&& whole == 0 ==> after.progress.done == 0 && after.progress.whole == 1
}

/// What an image from a running bake does to a session.
pub proof fn lemma_frames_are_taken_in(
    session: SessionSpec,
    event: BakeEvent,
    tone: spec_fn(Scalar, Scalar) -> u8,
)
    ensures
        event matches BakeEvent::Frame(frame) ==> {
            let after = session.after(event, tone);
            &&& takes_frame(
                session,
                after,
                frame.width,
                frame.height,
                frame.pixels@,
                frame.completed_samples,
                frame.total_samples,
            )
            &&& after.status == "Baking samples "@ + decimal(frame.completed_samples as nat)
                + " / "@ + decimal(frame.total_samples as nat)
        },
        event matches BakeEvent::AtlasFrame(frame) ==> {
            let after = session.after(event, tone);
            &&& takes_frame(
                session,
                after,
                frame.width,
                frame.height,
                frame.pixels@,
                frame.completed_tiles,
                frame.total_tiles,
            )
            &&& after.status == "Baking atlas tile "@ + decimal(frame.completed_tiles as nat)
                + " / "@ + decimal(frame.total_tiles as nat)
        },
{
    if let BakeEvent::Frame(frame) = event {
        let (width, height) = (frame.width, frame.height);
        assert(0 <= width * height) by (nonlinear_arith);
    }
    if let BakeEvent::AtlasFrame(frame) = event {
        let (width, height) = (frame.width, frame.height);
        assert(0 <= width * height) by (nonlinear_arith);
    }
}

/// A bake that ends is no longer running, is done in full, and what it did is known.  Its
/// image is kept as the newest, under the number of its samples or light tiles, and shown
/// where the latest is followed; the status names both files.
pub proof fn lemma_finished_bakes_are_kept(
    session: SessionSpec,
    stats: GpuBakeStats,
    image: String,
    manifest: String,
    tone: spec_fn(Scalar, Scalar) -> u8,
)
    requires
        session.wf(),
    ensures
        ({
            let after = session.after(BakeEvent::Finished { stats, image, manifest }, tone);
            let baked = match session.latest_bake_preview {
                Some(latest) => latest,
                None => session.preview,
            };
            &&& !after.baking
            &&& !after.can_cancel
            &&& after.progress.done == 1
            &&& after.progress.whole == 1
            &&& after.completed_samples == session.total_samples
            &&& after.total_samples == session.total_samples
            &&& after.last_stats == Some(stats)
            &&& after.latest_bake_preview is None
            &&& after.status == "Wrote "@ + image@ + " and "@ + manifest@
            &&& after.history.len() > 0
            &&& after.history.last().image == baked
            &&& baked.meta.mode == BakeMode::Single ==> after.history.last().label == decimal(
                session.total_samples as nat,
            ) + " samples"@
            &&& baked.meta.mode != BakeMode::Single ==> after.history.last().label == decimal(
                session.total_samples as nat,
            ) + " light tiles"@
            &&& after.follow_latest == session.follow_latest
            &&& after.preview_version == session.preview_version
            &&& session.follow_latest ==> after.preview == baked && after.preview_dirty
                && after.history_index == after.history.len() - 1
        }),
{
    let kept = SnapshotSpec { image: session.bake_image(), label: session.finished_label() };
    lemma_trimming_fits_the_budget(session.history.push(kept), MAX_HISTORY_BYTES as int);
}

/// What is kept: with the new snapshot as the newest, all that came before in order, less
/// the oldest where the images take more than 536,870,912 bytes, at twelve bytes to a color
/// and one to a byte that is shown.
pub proof fn lemma_history_keeps_its_order(session: SessionSpec, snapshot: SnapshotSpec)
    requires
        session.wf(),
    ensures
        ({
            let after = session.pushed(snapshot);
            let all = session.history.push(snapshot);
            let gone = all.len() - after.history.len();
            &&& 0 <= gone < all.len()
            &&& forall|i: int|
                0 <= i < after.history.len() ==> #[trigger] after.history[i] == all[gone + i]
            &&& bytes_of_history(all) <= 536_870_912 ==> gone == 0
            &&& after.history.len() == 1 || bytes_of_history(after.history) <= 536_870_912
            &&& gone > 0 ==> bytes_of_history(all.skip(gone - 1)) > 536_870_912
            &&& after.baking == session.baking
            &&& after.latest_bake_preview == session.latest_bake_preview
            &&& after.follow_latest == session.follow_latest
            &&& session.follow_latest || session.history_index < gone ==> after.history_index
                == after.history.len() - 1 && after.preview == snapshot.image
                && after.preview_dirty
            &&& !session.follow_latest && session.history_index >= gone ==> after.history_index
                == session.history_index - gone && after.preview == session.preview
                && after.preview_dirty == session.preview_dirty
        }),
        bytes_of_history(Seq::empty()) == 0,
        bytes_of_history(session.history.push(snapshot)) == bytes_of_history(session.history)
            + 12 * snapshot.image.rgb.len() + snapshot.image.rgba.len(),
{
    let all = session.history.push(snapshot);
    lemma_trimming_fits_the_budget(all, 536_870_912);
    assert(all.drop_last() =~= session.history);
    assert(all.last() == snapshot);
}

/// What is shown when a snapshot is selected: the one at the index, or the nearest; the
/// latest is followed from then on where it is the one.  Selecting keeps all snapshots, and
/// clearing keeps none.
pub proof fn lemma_selection_shows_a_snapshot(session: SessionSpec, index: int)
    requires
        session.wf(),
    ensures
        ({
            let after = session.selected(index);
            &&& after.history == session.history
            &&& after.baking == session.baking
            &&& after.status == session.status
            &&& after.latest_bake_preview == session.latest_bake_preview
            &&& session.history.len() == 0 ==> after.history_index == -1 && after.preview
                == session.preview && after.follow_latest == session.follow_latest
            &&& session.history.len() > 0 ==> {
                &&& 0 <= after.history_index < session.history.len()
                &&& 0 <= index < session.history.len() ==> after.history_index == index
                &&& index < 0 ==> after.history_index == 0
                &&& index >= session.history.len() ==> after.history_index
                    == session.history.len() - 1
                &&& after.preview == session.history[after.history_index].image
                &&& after.preview_dirty
                &&& after.follow_latest <==> after.history_index == session.history.len() - 1
            }
        }),
        ({
            let after = session.cleared();
            &&& after.history.len() == 0
            &&& after.history_index == -1
            &&& after.follow_latest
            &&& after.preview_dirty
            &&& after.preview.width == 0 && after.preview.height == 0
            &&& after.preview.rgb.len() == 0 && after.preview.rgba.len() == 0
            &&& after.baking == session.baking
            &&& after.status == session.status
            &&& after.latest_bake_preview == session.latest_bake_preview
        }),
{
}

/// How many snapshots a tick stands for: as few as leave no more than 96 ticks.
pub proof fn lemma_ticks_are_few(count: int)
    requires
        0 <= count,
    ensures
        1 <= tick_step(count),
        count <= 96 * tick_step(count),
        tick_step(count) > 1 ==> 96 * (tick_step(count) - 1) < count,
{
    crate::dispatch::lemma_ceil_div(count, 96);
}

/// Trimming drops the oldest snapshots and no other, and what was selected stays selected
/// unless it is dropped.
pub proof fn lemma_trimming_drops_the_oldest(session: SessionSpec, max_bytes: int)
    requires
        session.wf(),
    ensures
        ({
            let after = session.trimmed(max_bytes);
            let gone = session.history.len() - after.history.len();
            &&& 0 <= gone
            &&& session.history.len() > 0 ==> gone < session.history.len()
            &&& forall|i: int|
                0 <= i < after.history.len() ==> #[trigger] after.history[i]
                    == session.history[gone + i]
            &&& bytes_of_history(session.history) <= max_bytes ==> gone == 0
            &&& after.history.len() <= 1 || bytes_of_history(after.history) <= max_bytes
            &&& session.history_index >= gone ==> after.history_index == session.history_index
                - gone
            &&& session.history_index < gone ==> after.history_index == -1
            &&& after.preview == session.preview
            &&& after.preview_dirty == session.preview_dirty
            &&& after.follow_latest == session.follow_latest
            &&& after.status == session.status
            &&& after.baking == session.baking
        }),
{
    if session.history.len() > 0 {
        lemma_trimming_fits_the_budget(session.history, max_bytes);
    }
}

} // verus!
