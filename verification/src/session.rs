//! The state that the multiplexer keeps for one session, and the decisions
//! it takes when the child writes, when a timer ticks and when the child is
//! gone. Each step changes the state and says which frames to broadcast; the
//! caller performs the input and output.

use vstd::prelude::*;
use vstd::string::*;
use vstd::utf8::{encode_utf8, is_ascii_chars, is_ascii_chars_encode_utf8};
use crate::escape::{
    extract_osc9_notifications, lemma_osc9_cleaned_len, lossy_texts, osc9_cleaned, osc9_messages,
    osc_title_bytes, parse_osc_title, texts,
};
use crate::messages::{
    data_frame, data_message, exit_frame, exit_message, notification_frame, notification_message,
    session_state_frame, session_state_message, title_frame, title_message,
};
use crate::ring_buffer::{keep_last, OutputBuffer};
use crate::protocol::IDLE_TIMEOUT_MS;
use crate::text::utf8_lossy;
use crate::throughput::{
    rate_over, retained, Rate, ThroughputSample, ThroughputTracker, RETENTION_MS,
};

verus! {

/// Whether the child of a session is still running.
#[derive(Clone, Copy, Debug, PartialEq, Eq, Structural)]
pub enum SessionStatus {
    Running,
    Exited,
}

impl SessionStatus {
    /// The word that stands for the status in the metadata document.
    pub fn as_str(&self) -> (word: &'static str)
        ensures
            word@ == (match *self {
                SessionStatus::Running => "running"@,
                SessionStatus::Exited => "exited"@,
            }),
    {
        match self {
            SessionStatus::Running => "running",
            SessionStatus::Exited => "exited",
        }
    }
}

/// What is known of a session and kept on disk for discovery.
pub struct SessionMeta {
    pub id: String,
    pub command: String,
    pub args: Vec<String>,
    pub cwd: String,
    pub created_at: u64,
    pub last_activity: u64,
    pub status: SessionStatus,
    pub exit_code: Option<i32>,
    pub exited_at: Option<u64>,
    pub cols: u16,
    pub rows: u16,
    pub pid: u32,
    pub started_at: String,
    pub total_bytes_written: u64,
    pub last_active_at: String,
    pub bytes_per_second: Rate,
    pub title: Option<String>,
    pub error: Option<String>,
    pub bps1: Rate,
    pub bps5: Rate,
    pub bps15: Rate,
}

/// The state of one session, shared by the tasks of the multiplexer.
pub struct SharedState {
    pub output_buffer: OutputBuffer,
    pub meta: SessionMeta,
    pub meta_dirty: bool,
    pub session_active: bool,
    pub exit_code: Option<i32>,
    pub throughput: ThroughputTracker,
    pub title: Option<String>,
    /// Whether the last metrics tick saw a rate worth reporting.
    pub last_metrics_nonzero: bool,
    /// Whether the last metrics tick saw sustained output.
    pub sustained_output: bool,
}

/// The byte sequences of a list of frames.
pub open spec fn frame_views(frames: Seq<Vec<u8>>) -> Seq<Seq<u8>> {
    Seq::new(frames.len(), |k: int| frames[k]@)
}

/// The `NOTIFICATION` frames for a list of texts, in order. A text that is
/// too long for a frame gets none.
pub open spec fn notification_frames(notes: Seq<Seq<char>>) -> Seq<Seq<u8>>
    decreases notes.len(),
{
    if notes.len() == 0 {
        Seq::empty()
    } else if fits_frame(notes.last()) {
        notification_frames(notes.drop_last()).push(
            notification_message(encode_utf8(notes.last())),
        )
    } else {
        notification_frames(notes.drop_last())
    }
}

/// What the periodic metadata flush decided.
pub struct FlushTick {
    /// Whether the metadata is to be written out now.
    pub write: bool,
    /// Whether the flushing is over.
    pub stop: bool,
}

/// What the periodic idle check decided.
pub struct IdleTick {
    /// The `SESSION_STATE` frame to broadcast, if the session turned idle.
    pub frame: Option<Vec<u8>>,
    /// Whether the checking is over.
    pub stop: bool,
}

/// The figures of one `SESSION_METRICS` message.
#[derive(Clone, Copy, Debug)]
pub struct MetricsReport {
    pub bps1: Rate,
    pub bps5: Rate,
    pub bps15: Rate,
    pub total: u64,
}

/// What the periodic metrics tick decided.
pub struct MetricsTick {
    /// The figures to broadcast, if there is anything to report.
    pub report: Option<MetricsReport>,
    /// The `NOTIFICATION` frame to broadcast after them, if sustained output
    /// has come to a stop.
    pub notice: Option<Vec<u8>>,
    /// Whether the ticking is over.
    pub stop: bool,
}

/// Whether a text fits a frame once it is encoded.
pub open spec fn fits_frame(text: Seq<char>) -> bool {
    encode_utf8(text).len() < u32::MAX
}

impl SessionMeta {
    /// The metadata of a session whose child has just been started, at time
    /// `now_ms` with ISO text `now_iso`.
    pub fn started(
        id: String,
        command: String,
        args: Vec<String>,
        cwd: String,
        cols: u16,
        rows: u16,
        pid: u32,
        now_ms: u64,
        now_iso: String,
    ) -> (meta: SessionMeta)
        ensures
            meta == (SessionMeta {
                id,
                command,
                args,
                cwd,
                created_at: now_ms,
                last_activity: now_ms,
                status: SessionStatus::Running,
                exit_code: None,
                exited_at: None,
                cols,
                rows,
                pid,
                started_at: now_iso,
                total_bytes_written: 0,
                last_active_at: now_iso,
                bytes_per_second: Rate { bytes: 0, seconds: 0 },
                title: None,
                error: None,
                bps1: Rate { bytes: 0, seconds: 0 },
                bps5: Rate { bytes: 0, seconds: 0 },
                bps15: Rate { bytes: 0, seconds: 0 },
            }),
    {
        SessionMeta {
            id,
            command,
            args,
            cwd,
            created_at: now_ms,
            last_activity: now_ms,
            status: SessionStatus::Running,
            exit_code: None,
            exited_at: None,
            cols,
            rows,
            pid,
            started_at: now_iso.clone(),
            total_bytes_written: 0,
            last_active_at: now_iso,
            bytes_per_second: Rate::zero(),
            title: None,
            error: None,
            bps1: Rate::zero(),
            bps5: Rate::zero(),
            bps15: Rate::zero(),
        }
    }

    /// Closes the metadata of a session whose child could not be started:
    /// exited at its creation time with code 127, with the reason as its
    /// error.
    pub fn spawn_failed(self, error: String) -> (meta: SessionMeta)
        ensures
            meta == (SessionMeta {
                status: SessionStatus::Exited,
                exit_code: Some(127i32),
                exited_at: Some(self.created_at),
                error: Some(error),
                ..self
            }),
    {
        let mut meta = self;
        meta.status = SessionStatus::Exited;
        meta.exit_code = Some(127);
        meta.exited_at = Some(meta.created_at);
        meta.error = Some(error);
        meta
    }
}

impl SharedState {
    /// Validity of the state: the replay buffer is valid and small enough
    /// for a replay to fit one frame, the metadata agrees with the buffer and
    /// the title, and the title fits a frame.
    pub open spec fn wf(&self) -> bool {
        &&& self.output_buffer.wf()
        &&& self.output_buffer.capacity() < u32::MAX
        &&& self.meta.total_bytes_written == self.output_buffer.total()
        &&& self.meta.title == self.title
        &&& self.title.is_some() ==> fits_frame(self.title.unwrap()@)
    }

    /// The title that a chunk of output sets, if it sets one that differs
    /// from the current title and fits a frame.
    pub open spec fn new_title(&self, chunk: Seq<u8>) -> Option<Seq<char>> {
        match osc_title_bytes(chunk) {
            Some(bytes) => if (self.title.is_none() || self.title.unwrap()@ != utf8_lossy(bytes))
                && fits_frame(utf8_lossy(bytes)) {
                Some(utf8_lossy(bytes))
            } else {
                None
            },
            None => None,
        }
    }

    /// Looks for a title in a chunk of output. A title that differs from the
    /// current one is taken over into the state and the metadata, and its
    /// `TITLE` frame is returned: the caller writes the metadata out at once
    /// and broadcasts the frame. Otherwise nothing changes.
    pub fn note_title(&mut self, chunk: &[u8]) -> (frame: Option<Vec<u8>>)
        requires
            old(self).wf(),
        ensures
            final(self).wf(),
            match old(self).new_title(chunk@) {
                Some(text) => {
                    &&& frame.is_some()
                    &&& frame.unwrap()@ == title_message(encode_utf8(text))
                    &&& final(self).title.is_some()
                    &&& final(self).title.unwrap()@ == text
                    &&& !final(self).meta_dirty
                    &&& *final(self) == (SharedState {
                        title: final(self).title,
                        meta: SessionMeta { title: final(self).title, ..old(self).meta },
                        meta_dirty: false,
                        ..*old(self)
                    })
                },
                None => frame.is_none() && *final(self) == *old(self),
            },
    {
        match parse_osc_title(chunk) {
            None => None,
            Some(text) => {
                let changed = match &self.title {
                    Some(current) => !(*current == text),
                    None => true,
                };
                let fits = text.as_str().as_bytes().len() < 0xffffffff;
                if changed && fits {
                    let frame = title_frame(text.as_str());
                    self.meta.title = Some(text.clone());
                    self.title = Some(text);
                    self.meta_dirty = false;
                    Some(frame)
                } else {
                    None
                }
            },
        }
    }
    /// The frames to broadcast for a chunk of output, in order: one
    /// `NOTIFICATION` for each notification in it and, unless nothing is
    /// left of the chunk without them, `SESSION_STATE` active if the session
    /// was idle, then `DATA` with what is left.
    pub open spec fn output_frames(&self, chunk: Seq<u8>) -> Seq<Seq<u8>> {
        notification_frames(lossy_texts(osc9_messages(chunk))) + (if osc9_cleaned(chunk).len()
            == 0 {
            Seq::<Seq<u8>>::empty()
        } else if self.session_active {
            seq![data_message(osc9_cleaned(chunk))]
        } else {
            seq![session_state_message(true), data_message(osc9_cleaned(chunk))]
        })
    }

    /// The state `after` taking in `cleaned` output bytes at time `now_ms`:
    /// the bytes are in the replay buffer and counted, the activity times
    /// are set, a throughput sample is recorded, the rate of the last minute
    /// is refreshed, the metadata is due for a flush and the session is
    /// active.
    pub open spec fn took_output(
        &self,
        after: SharedState,
        cleaned: Seq<u8>,
        now_ms: u64,
        now_iso: String,
    ) -> bool {
        &&& after.output_buffer@ == keep_last(
            self.output_buffer@ + cleaned,
            self.output_buffer.capacity(),
        )
        &&& after.output_buffer.capacity() == self.output_buffer.capacity()
        &&& after.output_buffer.total() == self.output_buffer.total() + cleaned.len()
        &&& after.output_buffer.position() == (if cleaned.len()
            >= self.output_buffer.capacity() {
            0nat
        } else {
            (self.output_buffer.position() + cleaned.len()) % self.output_buffer.capacity()
        })
        &&& after.output_buffer.wrapped() == (self.output_buffer.wrapped()
            || self.output_buffer.position() + cleaned.len() >= self.output_buffer.capacity())
        &&& after.throughput.samples@ == retained(
            self.throughput.samples@.push(
                ThroughputSample { at_ms: now_ms, bytes: cleaned.len() as usize },
            ),
            now_ms,
            RETENTION_MS as int,
        )
        &&& after == (SharedState {
            output_buffer: after.output_buffer,
            throughput: after.throughput,
            meta: SessionMeta {
                last_activity: now_ms,
                total_bytes_written: (self.meta.total_bytes_written + cleaned.len()) as u64,
                last_active_at: now_iso,
                bytes_per_second: rate_over(after.throughput.samples@, now_ms, 60),
                ..self.meta
            },
            meta_dirty: true,
            session_active: true,
            ..*self
        })
    }

    /// Takes in a chunk of output read at time `now_ms`, whose ISO text is
    /// `now_iso`. Notifications are lifted out of the chunk; what is left
    /// goes to the replay buffer and is accounted for. Returns the frames to
    /// broadcast, in order. A chunk of nothing but notifications leaves the
    /// state as it is.
    pub fn record_output(&mut self, chunk: &[u8], now_ms: u64, now_iso: String) -> (frames: Vec<
        Vec<u8>,
    >)
        requires
            old(self).wf(),
            chunk@.len() < u32::MAX,
            old(self).output_buffer.total() + chunk@.len() <= u64::MAX,
        ensures
            final(self).wf(),
            frame_views(frames@) == old(self).output_frames(chunk@),
            osc9_cleaned(chunk@).len() == 0 ==> *final(self) == *old(self),
            osc9_cleaned(chunk@).len() > 0 ==> old(self).took_output(
                *final(self),
                osc9_cleaned(chunk@),
                now_ms,
                now_iso,
            ),
    {
        let (cleaned, notifications) = extract_osc9_notifications(chunk);
        proof {
            lemma_osc9_cleaned_len(chunk@, 0);
        }
        let mut frames: Vec<Vec<u8>> = Vec::new();
        let mut k: usize = 0;
        assert(texts(notifications@).subrange(0, 0) =~= Seq::<Seq<char>>::empty());
        while k < notifications.len()
            invariant
                k <= notifications.len(),
                frame_views(frames@) == notification_frames(
                    texts(notifications@).subrange(0, k as int),
                ),
            decreases notifications.len() - k,
        {
            let note: &String = &notifications[k];
            let ghost before = frames@;
            proof {
                let upto = texts(notifications@).subrange(0, k + 1);
                assert(upto.drop_last() =~= texts(notifications@).subrange(0, k as int));
                assert(upto.last() == note@);
            }
            if note.as_str().as_bytes().len() < 0xffffffff {
                let frame = notification_frame(note.as_str());
                frames.push(frame);
                assert(frame_views(frames@) =~= frame_views(before).push(frame@));
            }
            k += 1;
        }
        assert(texts(notifications@).subrange(0, k as int) =~= texts(notifications@));
        if cleaned.len() > 0 {
            let byte_len: usize = cleaned.len();
            self.output_buffer.write(cleaned.as_slice());
            self.meta.last_activity = now_ms;
            self.meta.total_bytes_written = self.meta.total_bytes_written + byte_len as u64;
            self.meta.last_active_at = now_iso;
            self.throughput.record_at(now_ms, byte_len);
            self.meta.bytes_per_second = self.throughput.compute_bps(now_ms, 60);
            self.meta_dirty = true;
            if !self.session_active {
                self.session_active = true;
                let ghost before = frames@;
                let state_frame = session_state_frame(true);
                frames.push(state_frame);
                assert(frame_views(frames@) =~= frame_views(before).push(state_frame@));
            }
            let ghost before = frames@;
            let data = data_frame(cleaned.as_slice());
            frames.push(data);
            assert(frame_views(frames@) =~= frame_views(before).push(data@));
            assert(frame_views(frames@) =~= old(self).output_frames(chunk@));
        } else {
            assert(frame_views(frames@) =~= old(self).output_frames(chunk@));
        }
        frames
    }
    /// The state `after` refreshing the three rates in the metadata as of
    /// time `now_ms`. Nothing else differs.
    pub open spec fn rates_refreshed(&self, after: SharedState, now_ms: u64) -> bool {
        after.meta == (SessionMeta {
            bps1: rate_over(self.throughput.samples@, now_ms, 60),
            bps5: rate_over(self.throughput.samples@, now_ms, 300),
            bps15: rate_over(self.throughput.samples@, now_ms, 900),
            bytes_per_second: rate_over(self.throughput.samples@, now_ms, 60),
            ..self.meta
        })
    }

    /// Sets the three rates of the metadata as of time `now_ms`, and the
    /// current rate to that of the last minute.
    fn refresh_rates(&mut self, now_ms: u64)
        requires
            old(self).wf(),
        ensures
            final(self).wf(),
            old(self).rates_refreshed(*final(self), now_ms),
            *final(self) == (SharedState { meta: final(self).meta, ..*old(self) }),
    {
        let bps1 = self.throughput.compute_bps(now_ms, 60);
        let bps5 = self.throughput.compute_bps(now_ms, 300);
        let bps15 = self.throughput.compute_bps(now_ms, 900);
        self.meta.bps1 = bps1;
        self.meta.bps5 = bps5;
        self.meta.bps15 = bps15;
        self.meta.bytes_per_second = bps1;
    }

    /// The periodic metadata flush, at time `now_ms`. If the metadata has
    /// changed since the last flush, its rates are refreshed and it is to be
    /// written out; the change mark is cleared. The flushing stops once the
    /// child has exited.
    pub fn flush_tick(&mut self, now_ms: u64) -> (tick: FlushTick)
        requires
            old(self).wf(),
        ensures
            final(self).wf(),
            tick.write == old(self).meta_dirty,
            tick.stop == old(self).exit_code.is_some(),
            !old(self).meta_dirty ==> *final(self) == *old(self),
            old(self).meta_dirty ==> old(self).rates_refreshed(*final(self), now_ms)
                && *final(self) == (SharedState {
                meta: final(self).meta,
                meta_dirty: false,
                ..*old(self)
            }),
    {
        let write = self.meta_dirty;
        if write {
            self.refresh_rates(now_ms);
            self.meta_dirty = false;
        }
        FlushTick { write, stop: self.exit_code.is_some() }
    }

    /// Whether the session turns idle at time `now_ms`: it is active, the
    /// child is running, and the last output is at least the idle timeout
    /// ago.
    pub open spec fn turns_idle(&self, now_ms: u64) -> bool {
        self.exit_code.is_none() && self.session_active && now_ms - self.meta.last_activity
            >= IDLE_TIMEOUT_MS
    }

    /// The periodic idle check, at time `now_ms`. A session that has been
    /// silent for the idle timeout turns idle: the metadata is due for a
    /// flush, and `SESSION_STATE` idle is to be broadcast. The checking stops
    /// once the child has exited.
    pub fn idle_tick(&mut self, now_ms: u64) -> (tick: IdleTick)
        requires
            old(self).wf(),
        ensures
            final(self).wf(),
            tick.stop == old(self).exit_code.is_some(),
            old(self).turns_idle(now_ms) ==> tick.frame.is_some() && tick.frame.unwrap()@
                == session_state_message(false) && *final(self) == (SharedState {
                session_active: false,
                meta_dirty: true,
                ..*old(self)
            }),
            !old(self).turns_idle(now_ms) ==> tick.frame.is_none() && *final(self) == *old(self),
    {
        if self.exit_code.is_some() {
            return IdleTick { frame: None, stop: true };
        }
        if self.session_active && now_ms >= self.meta.last_activity && now_ms
            - self.meta.last_activity >= IDLE_TIMEOUT_MS {
            self.session_active = false;
            self.meta_dirty = true;
            IdleTick { frame: Some(session_state_frame(false)), stop: false }
        } else {
            IdleTick { frame: None, stop: false }
        }
    }

    /// Whether any of the three rates as of `now_ms` is at least half a byte
    /// a second.
    pub open spec fn any_rate(&self, now_ms: u64) -> bool {
        ||| rate_over(self.throughput.samples@, now_ms, 60).at_least(1, 2)
        ||| rate_over(self.throughput.samples@, now_ms, 300).at_least(1, 2)
        ||| rate_over(self.throughput.samples@, now_ms, 900).at_least(1, 2)
    }

    /// Whether output is sustained as of `now_ms`: more than a hundred bytes
    /// a second over the last five minutes.
    pub open spec fn sustained(&self, now_ms: u64) -> bool {
        rate_over(self.throughput.samples@, now_ms, 300).more_than(100)
    }

    /// Whether sustained output has come to a stop as of `now_ms`: the last
    /// tick saw sustained output, this one sees none, and the rate of the
    /// last minute is below one byte a second.
    pub open spec fn output_stopped(&self, now_ms: u64) -> bool {
        self.sustained_output && !self.sustained(now_ms) && rate_over(
            self.throughput.samples@,
            now_ms,
            60,
        ).less_than(1)
    }

    /// The periodic metrics tick, at time `now_ms`. The rates in the
    /// metadata are refreshed. They are to be broadcast while any of them is
    /// at least half a byte a second, and once more after that, so that
    /// clients see the decay to zero. When sustained output has come to a
    /// stop, the `NOTIFICATION` "Session idle" is to be broadcast after
    /// them. The ticking stops, and nothing changes, once the child has
    /// exited.
    pub fn metrics_tick(&mut self, now_ms: u64) -> (tick: MetricsTick)
        requires
            old(self).wf(),
        ensures
            final(self).wf(),
            tick.stop == old(self).exit_code.is_some(),
            tick.stop ==> tick.report.is_none() && tick.notice.is_none()
                && *final(self) == *old(self),
            !tick.stop ==> {
                &&& old(self).rates_refreshed(*final(self), now_ms)
                &&& *final(self) == (SharedState {
                    meta: final(self).meta,
                    last_metrics_nonzero: if old(self).any_rate(now_ms)
                        || old(self).last_metrics_nonzero {
                        old(self).any_rate(now_ms)
                    } else {
                        old(self).last_metrics_nonzero
                    },
                    sustained_output: old(self).sustained(now_ms),
                    ..*old(self)
                })
                &&& tick.report.is_some() == (old(self).any_rate(now_ms)
                    || old(self).last_metrics_nonzero)
                &&& tick.report.is_some() ==> tick.report.unwrap() == (MetricsReport {
                    bps1: rate_over(old(self).throughput.samples@, now_ms, 60),
                    bps5: rate_over(old(self).throughput.samples@, now_ms, 300),
                    bps15: rate_over(old(self).throughput.samples@, now_ms, 900),
                    total: old(self).meta.total_bytes_written,
                })
                &&& tick.notice.is_some() == old(self).output_stopped(now_ms)
                &&& tick.notice.is_some() ==> tick.notice.unwrap()@ == notification_message(
                    "Session idle".spec_bytes(),
                )
            },
    {
        if self.exit_code.is_some() {
            return MetricsTick { report: None, notice: None, stop: true };
        }
        self.refresh_rates(now_ms);
        let bps1 = self.meta.bps1;
        let bps5 = self.meta.bps5;
        let bps15 = self.meta.bps15;
        let total = self.meta.total_bytes_written;
        let any_nonzero = bps1.at_least_half() || bps5.at_least_half() || bps15.at_least_half();
        let mut report: Option<MetricsReport> = None;
        if any_nonzero || self.last_metrics_nonzero {
            self.last_metrics_nonzero = any_nonzero;
            report = Some(MetricsReport { bps1, bps5, bps15, total });
        }
        let bps5_above_threshold = bps5.exceeds(100);
        let mut notice: Option<Vec<u8>> = None;
        if self.sustained_output && bps1.below(1) && !bps5_above_threshold {
            let text: &str = "Session idle";
            proof {
                reveal_strlit("Session idle");
                assert(is_ascii_chars(text@));
                is_ascii_chars_encode_utf8(text@);
            }
            notice = Some(notification_frame(text));
        }
        self.sustained_output = bps5_above_threshold;
        MetricsTick { report, notice, stop: false }
    }

    /// The child has exited with `code`, noticed at time `now_ms`. The code
    /// is kept, the metadata is closed, and the caller writes it out at once
    /// and broadcasts the returned `EXIT` frame.
    pub fn child_exited(&mut self, code: i32, now_ms: u64) -> (frame: Vec<u8>)
        requires
            old(self).wf(),
        ensures
            final(self).wf(),
            frame@ == exit_message(code),
            *final(self) == (SharedState {
                exit_code: Some(code),
                meta: SessionMeta {
                    status: SessionStatus::Exited,
                    exit_code: Some(code),
                    exited_at: Some(now_ms),
                    ..old(self).meta
                },
                meta_dirty: false,
                ..*old(self)
            }),
    {
        self.exit_code = Some(code);
        self.meta.status = SessionStatus::Exited;
        self.meta.exit_code = Some(code);
        self.meta.exited_at = Some(now_ms);
        self.meta_dirty = false;
        exit_frame(code)
    }

    /// The host was told to terminate at time `now_ms`. The metadata is
    /// closed with exit code -1, and the caller writes it out at once.
    pub fn terminated(&mut self, now_ms: u64)
        requires
            old(self).wf(),
        ensures
            final(self).wf(),
            *final(self) == (SharedState {
                meta: SessionMeta {
                    status: SessionStatus::Exited,
                    exit_code: Some(-1i32),
                    exited_at: Some(now_ms),
                    ..old(self).meta
                },
                ..*old(self)
            }),
    {
        self.meta.status = SessionStatus::Exited;
        self.meta.exit_code = Some(-1);
        self.meta.exited_at = Some(now_ms);
    }

    /// The terminal window has a new size. Only the metadata takes note; it
    /// is not marked for a flush.
    pub fn resized(&mut self, cols: u16, rows: u16)
        requires
            old(self).wf(),
        ensures
            final(self).wf(),
            *final(self) == (SharedState {
                meta: SessionMeta { cols, rows, ..old(self).meta },
                ..*old(self)
            }),
    {
        self.meta.cols = cols;
        self.meta.rows = rows;
    }

    /// The state of a session whose child has just been started: an empty
    /// replay buffer of the given capacity, no title, active.
    pub fn new(meta: SessionMeta, capacity: usize) -> (state: SharedState)
        requires
            0 < capacity < u32::MAX,
            meta.total_bytes_written == 0,
            meta.title.is_none(),
        ensures
            state.wf(),
            state.meta == meta,
            state.output_buffer@ == Seq::<u8>::empty(),
            state.output_buffer.capacity() == capacity,
            state.output_buffer.total() == 0,
            state.output_buffer.position() == 0,
            !state.output_buffer.wrapped(),
            !state.meta_dirty,
            state.session_active,
            state.exit_code.is_none(),
            state.throughput.samples@ == Seq::<ThroughputSample>::empty(),
            state.title.is_none(),
            !state.last_metrics_nonzero,
            !state.sustained_output,
    {
        SharedState {
            output_buffer: OutputBuffer::new(capacity),
            meta,
            meta_dirty: false,
            session_active: true,
            exit_code: None,
            throughput: ThroughputTracker::new(),
            title: None,
            last_metrics_nonzero: false,
            sustained_output: false,
        }
    }
}

} // verus!
