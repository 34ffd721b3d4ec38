use vstd::prelude::*;
use crate::ba::video::Video;
use crate::krnl::console::{Console, ConsoleView, SIZE, blank, push_writes};
use crate::krnl::timer::{Timer, TimerDescriptor, TimerView, add_spec, MAX_ENTRIES};
use crate::krnl::port::{Port, wait_port};

verus! {

/// Frames shown per second.
pub const FPS: u64 = 9;

/// Timer ticks per second.
pub const TICK_PER_SEC: u64 = 18;

/// Seconds counted down before the video starts.
pub const COUNTDOWN_SECONDS: u64 = 3;

/// The ticks between two frames.
pub fn frame_interval() -> (t: u64)
    ensures
        t == TICK_PER_SEC / FPS,
{
    TICK_PER_SEC / FPS
}

/// What the countdown timer does when it fires for the `count`-th time:
/// `Some(s)` announces `s` seconds to go (followed by `count` dots); `None`
/// ends the countdown and starts the video.
pub fn countdown(count: u64) -> (r: Option<u64>)
    ensures
        r == (if count < COUNTDOWN_SECONDS {
            Some((COUNTDOWN_SECONDS - count) as u64)
        } else {
            None
        }),
{
    if count < COUNTDOWN_SECONDS {
        Some(COUNTDOWN_SECONDS - count)
    } else {
        None
    }
}

/// What the frame timer does when it fires: shows the next frame and gives
/// the progress to report with the console's port writes, or gives `None`
/// once every frame has been shown.
pub fn show_frame(video: &mut Video, console: &mut Console) -> (r: Option<(usize, Vec<(Port, u8)>)>)
    requires
        old(video).wf(),
        old(console).wf(),
    ensures
        final(video).wf(),
        final(console).wf(),
        old(video)@.cur_frame < old(video)@.n_frames ==> {
            &&& r is Some
            &&& final(video)@.cur_frame == old(video)@.cur_frame + 1
            &&& final(video)@.frames == old(video)@.frames
            &&& final(video)@.n_frames == old(video)@.n_frames
            &&& final(console)@ == (ConsoleView {
                screen: old(video)@.frames[old(video)@.cur_frame as int],
                row: 0,
                col: 0,
                ..old(console)@
            })
            &&& r.unwrap().0 == (old(video)@.cur_frame + 2) * 100 / old(video)@.n_frames
            &&& r.unwrap().1@ == push_writes(final(console)@).push((wait_port(), 0u8))
        },
        old(video)@.cur_frame >= old(video)@.n_frames ==> r is None && final(video)@ == old(video)@
            && final(console)@ == old(console)@,
{
    if video.has_next() {
        let w = video.next(console);
        proof {
            video.lemma_frame_bound();
        }
        Some((video.progress(), w))
    } else {
        None
    }
}

/// What the countdown timer did when it fired.
pub enum CountdownStep {
    /// Announce this many seconds to go.
    Announce(u64),
    /// The countdown is over: it was removed and the frame timer added
    /// (with the descriptor that adding it gave).
    Started(Option<TimerDescriptor>),
}

/// What the frame timer did when it fired.
pub enum FrameStep {
    /// A frame was shown: the progress to report and the console's writes.
    Shown(usize, Vec<(Port, u8)>),
    /// Every frame had been shown: the frame timer was removed, the console
    /// cleared (these are its writes) and the clock timer added (with the
    /// descriptor that adding it gave).
    Finished(Vec<(Port, u8)>, Option<TimerDescriptor>),
}

/// The table after timer `d` is removed.
pub open spec fn without<F>(v: TimerView<F>, d: TimerDescriptor) -> TimerView<F> {
    TimerView { entries: v.entries.update(d.id() as int, None), ticks: v.ticks }
}

/// Starts the show: adds the countdown timer, which fires every second.
pub fn start<F: Copy>(timer: &mut Timer<F>, countdown_fn: F) -> (d: Option<TimerDescriptor>)
    requires
        old(timer).wf(),
    ensures
        final(timer).wf(),
        add_spec(old(timer)@, TICK_PER_SEC, countdown_fn, final(timer)@, d),
{
    timer.add(TICK_PER_SEC, countdown_fn)
}

/// The countdown timer `d` fired for the `count`-th time: announces the
/// seconds to go, or, once they are over, replaces itself with the frame
/// timer `frame_fn`, which fires every `frame_interval()` ticks.
pub fn on_countdown<F: Copy>(timer: &mut Timer<F>, d: TimerDescriptor, count: u64, frame_fn: F) -> (r:
    CountdownStep)
    requires
        old(timer).wf(),
        d.id() < MAX_ENTRIES,
    ensures
        final(timer).wf(),
        count < COUNTDOWN_SECONDS ==> r == CountdownStep::Announce((COUNTDOWN_SECONDS - count) as u64)
            && final(timer)@ == old(timer)@,
        count >= COUNTDOWN_SECONDS ==> (r matches CountdownStep::Started(nd) && add_spec(
            without(old(timer)@, d),
            TICK_PER_SEC / FPS,
            frame_fn,
            final(timer)@,
            nd,
        )),
{
    match countdown(count) {
        Some(seconds) => CountdownStep::Announce(seconds),
        None => {
            timer.remove(d);
            let nd = timer.add(frame_interval(), frame_fn);
            CountdownStep::Started(nd)
        },
    }
}

/// The frame timer `d` fired: shows the next frame, or, once every frame
/// has been shown, removes itself, clears the console and adds the clock
/// timer `clock_fn`, which fires every tick.
pub fn on_frame<F: Copy>(
    timer: &mut Timer<F>,
    d: TimerDescriptor,
    video: &mut Video,
    console: &mut Console,
    clock_fn: F,
) -> (r: FrameStep)
    requires
        old(timer).wf(),
        d.id() < MAX_ENTRIES,
        old(video).wf(),
        old(console).wf(),
    ensures
        final(timer).wf(),
        final(video).wf(),
        final(console).wf(),
        old(video)@.cur_frame < old(video)@.n_frames ==> {
            &&& r matches FrameStep::Shown(progress, w)
            &&& final(timer)@ == old(timer)@
            &&& final(video)@.cur_frame == old(video)@.cur_frame + 1
            &&& final(video)@.frames == old(video)@.frames
            &&& final(video)@.n_frames == old(video)@.n_frames
            &&& final(console)@ == (ConsoleView {
                screen: old(video)@.frames[old(video)@.cur_frame as int],
                row: 0,
                col: 0,
                ..old(console)@
            })
            &&& progress == (old(video)@.cur_frame + 2) * 100 / old(video)@.n_frames
            &&& w@ == push_writes(final(console)@).push((wait_port(), 0u8))
        },
        old(video)@.cur_frame >= old(video)@.n_frames ==> {
            &&& r matches FrameStep::Finished(w, nd)
            &&& final(video)@ == old(video)@
            &&& final(console)@ == (ConsoleView {
                screen: Seq::new(SIZE as nat, |i: int| blank(old(console)@.attrib)),
                row: 0,
                col: 0,
                ..old(console)@
            })
            &&& w@ == push_writes(final(console)@).push((wait_port(), 0u8))
            &&& add_spec(without(old(timer)@, d), 1, clock_fn, final(timer)@, nd)
        },
{
    match show_frame(video, console) {
        Some((progress, w)) => FrameStep::Shown(progress, w),
        None => {
            timer.remove(d);
            let w = console.clear();
            let nd = timer.add(1, clock_fn);
            FrameStep::Finished(w, nd)
        },
    }
}

} // verus!
