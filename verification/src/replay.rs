//! The replay engine: a steppable cursor over one loaded candle series,
//! with playback speed and play/pause state. Manual stepping and seeking
//! clamp the cursor to the series and interrupt autoplay.

use vstd::prelude::*;

use crate::candle::Candle;
use crate::candle::wf_series;
use crate::fixed::FixedDec;
use crate::fixed::dec_string_spec;
use crate::timeframe::TimeFrame;
use crate::ChartError;

verus! {

/// Slowest playback speed, in 10^-8 units: 0.1.
pub const SPEED_MIN_UNITS: i128 = 10_000_000;

/// Normal playback speed, in 10^-8 units: 1.0.
pub const SPEED_ONE_UNITS: i128 = 100_000_000;

/// Fastest playback speed, in 10^-8 units: 10.0.
pub const SPEED_MAX_UNITS: i128 = 1_000_000_000;

/// The single active playback session: empty until a series is loaded,
/// then a clamped cursor over that series.
pub struct ReplayState {
    pub symbol: String,
    pub timeframe: TimeFrame,
    pub data: Vec<Candle>,
    pub current_index: usize,
    pub speed: FixedDec,
    pub is_playing: bool,
}

/// Cursor position after stepping forward by `n`, clamped to the end.
pub open spec fn fwd_index(i: int, n: int, len: int) -> int {
    if i + n <= len - 1 {
        i + n
    } else {
        len - 1
    }
}

/// Cursor position after stepping backward by `n`, clamped to the start.
pub open spec fn bwd_index(i: int, n: int) -> int {
    if n <= i {
        i - n
    } else {
        0
    }
}

/// Cursor position after seeking to `i`, clamped to the end.
pub open spec fn seek_index(i: int, len: int) -> int {
    if i <= len - 1 {
        i
    } else {
        len - 1
    }
}

/// Denominator of the reported progress ratio: the last index when the
/// series has more than one candle, else the length itself.
pub open spec fn progress_den_spec(len: int) -> int {
    if len > 1 {
        len - 1
    } else {
        len
    }
}

/// Playback speed clamped into the supported band.
pub open spec fn clamp_speed_spec(u: int) -> int {
    if u < SPEED_MIN_UNITS {
        SPEED_MIN_UNITS as int
    } else if u > SPEED_MAX_UNITS {
        SPEED_MAX_UNITS as int
    } else {
        u
    }
}

/// One cursor move reported to the caller: the candle under the new
/// cursor and the playback progress as an exact ratio.
#[derive(Debug)]
pub struct ReplayUpdate {
    pub current_index: usize,
    pub total_candles: usize,
    pub time: i64,
    pub open: String,
    pub high: String,
    pub low: String,
    pub close: String,
    pub progress_num: usize,
    pub progress_den: usize,
}

/// Read-only projection of a freshly loaded session.
#[derive(Debug)]
pub struct ReplayInfo {
    pub total_candles: usize,
    pub current_index: usize,
    pub start_time: i64,
    pub end_time: i64,
    pub symbol: String,
    pub timeframe: String,
    pub is_playing: bool,
    pub speed: FixedDec,
}

/// Read-only projection of the session state, defined in every state.
pub struct ReplayStateResponse {
    pub is_loaded: bool,
    pub is_playing: bool,
    pub current_index: usize,
    pub total_candles: usize,
    pub speed: FixedDec,
    pub symbol: String,
    pub timeframe: String,
    pub progress_num: usize,
    pub progress_den: usize,
}

impl ReplayState {
    /// What every operation preserves: a clamped cursor over a
    /// well-formed series, a speed in band, and a quiescent empty state.
    pub open spec fn inv(&self) -> bool {
        &&& wf_series(self.data@)
        &&& self.data@.len() > 0 ==> self.current_index < self.data@.len()
        &&& self.data@.len() == 0 ==> self.current_index == 0 && !self.is_playing
        &&& SPEED_MIN_UNITS <= self.speed.units <= SPEED_MAX_UNITS
    }

    /// The empty session: nothing loaded, paused, normal speed.
    pub fn empty() -> (r: ReplayState)
        ensures
            r.inv(),
            r.data@.len() == 0,
            r.symbol@ == Seq::<char>::empty(),
            r.timeframe == TimeFrame::H1,
            r.current_index == 0,
            !r.is_playing,
            r.speed.units == SPEED_ONE_UNITS,
    {
        ReplayState {
            symbol: String::new(),
            timeframe: TimeFrame::H1,
            data: Vec::new(),
            current_index: 0,
            speed: FixedDec { units: SPEED_ONE_UNITS },
            is_playing: false,
        }
    }

    /// Load a new session over `data`, unconditionally replacing any
    /// prior one: cursor at the start, paused, normal speed.
    pub fn load(&mut self, symbol: String, timeframe: TimeFrame, data: Vec<Candle>)
        requires
            data@.len() > 0,
            wf_series(data@),
        ensures
            final(self).inv(),
            final(self).symbol@ == symbol@,
            final(self).timeframe == timeframe,
            final(self).data@ == data@,
            final(self).current_index == 0,
            final(self).speed.units == SPEED_ONE_UNITS,
            !final(self).is_playing,
    {
        self.symbol = symbol;
        self.timeframe = timeframe;
        self.data = data;
        self.current_index = 0;
        self.speed = FixedDec { units: SPEED_ONE_UNITS };
        self.is_playing = false;
    }

    /// Begin playback. Fails exactly when nothing is loaded; already
    /// playing is no error.
    pub fn start(&mut self) -> (r: Result<(), ChartError>)
        requires
            old(self).inv(),
        ensures
            final(self).inv(),
            old(self).data@.len() == 0 ==> r == Result::<(), ChartError>::Err(
                ChartError::EmptyReplaySession,
            ) && *final(self) == *old(self),
            old(self).data@.len() > 0 ==> r is Ok && *final(self) == (ReplayState {
                is_playing: true,
                ..*old(self)
            }),
    {
        if self.data.len() == 0 {
            return Err(ChartError::EmptyReplaySession);
        }
        self.is_playing = true;
        Ok(())
    }

    /// Halt playback; always safe, a no-op when nothing is loaded.
    pub fn pause(&mut self)
        requires
            old(self).inv(),
        ensures
            final(self).inv(),
            *final(self) == (ReplayState { is_playing: false, ..*old(self) }),
    {
        self.is_playing = false;
    }

    /// Halt playback and rewind the cursor; loaded data is kept.
    pub fn stop(&mut self)
        requires
            old(self).inv(),
        ensures
            final(self).inv(),
            *final(self) == (ReplayState { is_playing: false, current_index: 0, ..*old(self) }),
    {
        self.is_playing = false;
        self.current_index = 0;
    }

    /// Clamp the playback speed into the supported band; the cursor and
    /// the loaded data are untouched. Never fails.
    pub fn set_speed(&mut self, speed: FixedDec)
        requires
            old(self).inv(),
        ensures
            final(self).inv(),
            final(self).speed.units == clamp_speed_spec(speed.units as int),
            *final(self) == (ReplayState { speed: final(self).speed, ..*old(self) }),
    {
        let clamped = if speed.units < SPEED_MIN_UNITS {
            SPEED_MIN_UNITS
        } else if speed.units > SPEED_MAX_UNITS {
            SPEED_MAX_UNITS
        } else {
            speed.units
        };
        self.speed = FixedDec { units: clamped };
    }

    /// The update reported after a cursor move.
    fn make_update(&self) -> (r: ReplayUpdate)
        requires
            self.inv(),
            self.data@.len() > 0,
        ensures
            r.current_index == self.current_index,
            r.total_candles == self.data@.len(),
            r.time == self.data@[self.current_index as int].time,
            r.open@ == dec_string_spec(self.data@[self.current_index as int].open.units as int),
            r.high@ == dec_string_spec(self.data@[self.current_index as int].high.units as int),
            r.low@ == dec_string_spec(self.data@[self.current_index as int].low.units as int),
            r.close@ == dec_string_spec(self.data@[self.current_index as int].close.units as int),
            r.progress_num == self.current_index,
            r.progress_den == progress_den_spec(self.data@.len() as int),
    {
        let len = self.data.len();
        let c = &self.data[self.current_index];
        let den = if len > 1 {
            len - 1
        } else {
            len
        };
        ReplayUpdate {
            current_index: self.current_index,
            total_candles: len,
            time: c.time,
            open: c.open.to_decimal_string(),
            high: c.high.to_decimal_string(),
            low: c.low.to_decimal_string(),
            close: c.close.to_decimal_string(),
            progress_num: self.current_index,
            progress_den: den,
        }
    }

    /// Move the cursor forward by `steps`, clamped to the last candle;
    /// manual stepping interrupts autoplay. Fails exactly when nothing
    /// is loaded, leaving the state unchanged.
    pub fn step_forward(&mut self, steps: usize) -> (r: Result<ReplayUpdate, ChartError>)
        requires
            old(self).inv(),
        ensures
            final(self).inv(),
            old(self).data@.len() == 0 ==> r is Err && r->Err_0
                == ChartError::EmptyReplaySession && *final(self) == *old(self),
            old(self).data@.len() > 0 ==> {
                &&& r is Ok
                &&& final(self).current_index as int == fwd_index(
                    old(self).current_index as int,
                    steps as int,
                    old(self).data@.len() as int,
                )
                &&& *final(self) == (ReplayState {
                    current_index: final(self).current_index,
                    is_playing: false,
                    ..*old(self)
                })
                &&& r->Ok_0.current_index == final(self).current_index
                &&& r->Ok_0.time == old(self).data@[final(self).current_index as int].time
                &&& r->Ok_0.open@ == dec_string_spec(
                    old(self).data@[final(self).current_index as int].open.units as int,
                )
                &&& r->Ok_0.high@ == dec_string_spec(
                    old(self).data@[final(self).current_index as int].high.units as int,
                )
                &&& r->Ok_0.low@ == dec_string_spec(
                    old(self).data@[final(self).current_index as int].low.units as int,
                )
                &&& r->Ok_0.close@ == dec_string_spec(
                    old(self).data@[final(self).current_index as int].close.units as int,
                )
                &&& r->Ok_0.progress_num == final(self).current_index
                &&& r->Ok_0.progress_den == progress_den_spec(old(self).data@.len() as int)
                &&& r->Ok_0.total_candles == old(self).data@.len()
            },
    {
        let len = self.data.len();
        if len == 0 {
            return Err(ChartError::EmptyReplaySession);
        }
        let room = len - 1 - self.current_index;
        self.current_index = if steps <= room {
            self.current_index + steps
        } else {
            len - 1
        };
        self.is_playing = false;
        Ok(self.make_update())
    }

    /// Move the cursor backward by `steps`, clamped to the first candle;
    /// manual stepping interrupts autoplay. Fails exactly when nothing
    /// is loaded, leaving the state unchanged.
    pub fn step_backward(&mut self, steps: usize) -> (r: Result<ReplayUpdate, ChartError>)
        requires
            old(self).inv(),
        ensures
            final(self).inv(),
            old(self).data@.len() == 0 ==> r is Err && r->Err_0
                == ChartError::EmptyReplaySession && *final(self) == *old(self),
            old(self).data@.len() > 0 ==> {
                &&& r is Ok
                &&& final(self).current_index as int == bwd_index(
                    old(self).current_index as int,
                    steps as int,
                )
                &&& *final(self) == (ReplayState {
                    current_index: final(self).current_index,
                    is_playing: false,
                    ..*old(self)
                })
                &&& r->Ok_0.current_index == final(self).current_index
                &&& r->Ok_0.time == old(self).data@[final(self).current_index as int].time
                &&& r->Ok_0.open@ == dec_string_spec(
                    old(self).data@[final(self).current_index as int].open.units as int,
                )
                &&& r->Ok_0.high@ == dec_string_spec(
                    old(self).data@[final(self).current_index as int].high.units as int,
                )
                &&& r->Ok_0.low@ == dec_string_spec(
                    old(self).data@[final(self).current_index as int].low.units as int,
                )
                &&& r->Ok_0.close@ == dec_string_spec(
                    old(self).data@[final(self).current_index as int].close.units as int,
                )
                &&& r->Ok_0.progress_num == final(self).current_index
                &&& r->Ok_0.progress_den == progress_den_spec(old(self).data@.len() as int)
                &&& r->Ok_0.total_candles == old(self).data@.len()
            },
    {
        let len = self.data.len();
        if len == 0 {
            return Err(ChartError::EmptyReplaySession);
        }
        self.current_index = if steps <= self.current_index {
            self.current_index - steps
        } else {
            0
        };
        self.is_playing = false;
        Ok(self.make_update())
    }

    /// Move the cursor to `index`, clamped to the last candle; same side
    /// effects as stepping. Fails exactly when nothing is loaded.
    pub fn seek(&mut self, index: usize) -> (r: Result<ReplayUpdate, ChartError>)
        requires
            old(self).inv(),
        ensures
            final(self).inv(),
            old(self).data@.len() == 0 ==> r is Err && r->Err_0
                == ChartError::EmptyReplaySession && *final(self) == *old(self),
            old(self).data@.len() > 0 ==> {
                &&& r is Ok
                &&& final(self).current_index as int == seek_index(
                    index as int,
                    old(self).data@.len() as int,
                )
                &&& *final(self) == (ReplayState {
                    current_index: final(self).current_index,
                    is_playing: false,
                    ..*old(self)
                })
                &&& r->Ok_0.current_index == final(self).current_index
                &&& r->Ok_0.time == old(self).data@[final(self).current_index as int].time
                &&& r->Ok_0.open@ == dec_string_spec(
                    old(self).data@[final(self).current_index as int].open.units as int,
                )
                &&& r->Ok_0.high@ == dec_string_spec(
                    old(self).data@[final(self).current_index as int].high.units as int,
                )
                &&& r->Ok_0.low@ == dec_string_spec(
                    old(self).data@[final(self).current_index as int].low.units as int,
                )
                &&& r->Ok_0.close@ == dec_string_spec(
                    old(self).data@[final(self).current_index as int].close.units as int,
                )
                &&& r->Ok_0.progress_num == final(self).current_index
                &&& r->Ok_0.progress_den == progress_den_spec(old(self).data@.len() as int)
                &&& r->Ok_0.total_candles == old(self).data@.len()
            },
    {
        let len = self.data.len();
        if len == 0 {
            return Err(ChartError::EmptyReplaySession);
        }
        self.current_index = if index <= len - 1 {
            index
        } else {
            len - 1
        };
        self.is_playing = false;
        Ok(self.make_update())
    }

    /// Read-only projection of the full state; safe in every state and
    /// a defined empty form when nothing is loaded.
    pub fn snapshot(&self) -> (r: ReplayStateResponse)
        requires
            self.inv(),
        ensures
            r.is_loaded == (self.data@.len() > 0),
            r.is_playing == (self.is_playing && self.data@.len() > 0),
            r.current_index == self.current_index,
            r.total_candles == self.data@.len(),
            self.data@.len() > 0 ==> r.speed == self.speed && r.symbol@ == self.symbol@
                && r.timeframe@ == self.timeframe.label_spec() && r.progress_num
                == self.current_index && r.progress_den == progress_den_spec(
                self.data@.len() as int,
            ),
            self.data@.len() == 0 ==> r.speed.units == SPEED_ONE_UNITS && r.symbol@
                == Seq::<char>::empty() && r.timeframe@ == Seq::<char>::empty() && r.progress_num
                == 0 && r.progress_den == 1,
    {
        let len = self.data.len();
        if len == 0 {
            ReplayStateResponse {
                is_loaded: false,
                is_playing: false,
                current_index: 0,
                total_candles: 0,
                speed: FixedDec { units: SPEED_ONE_UNITS },
                symbol: String::new(),
                timeframe: String::new(),
                progress_num: 0,
                progress_den: 1,
            }
        } else {
            ReplayStateResponse {
                is_loaded: true,
                is_playing: self.is_playing,
                current_index: self.current_index,
                total_candles: len,
                speed: self.speed,
                symbol: self.symbol.clone(),
                timeframe: self.timeframe.display(),
                progress_num: self.current_index,
                progress_den: if len > 1 {
                    len - 1
                } else {
                    len
                },
            }
        }
    }
}

impl Default for ReplayState {
    /// The empty session, as `empty` builds it.
    fn default() -> (r: ReplayState)
        ensures
            r.inv(),
            r.data@.len() == 0,
            r.symbol@ == Seq::<char>::empty(),
            r.timeframe == TimeFrame::H1,
            r.current_index == 0,
            !r.is_playing,
            r.speed.units == SPEED_ONE_UNITS,
    {
        ReplayState::empty()
    }
}

/// Stepping forward and then backward by the same count returns the
/// cursor to where it began, as long as the forward step was not clamped
/// at the end; a cursor at the start stays there under backward steps.
pub proof fn lemma_step_round_trip(i: int, n: int, len: int)
    requires
        0 <= i < len,
        0 <= n,
    ensures
        i + n <= len - 1 ==> bwd_index(fwd_index(i, n, len), n) == i,
        bwd_index(0, n) == 0,
{
}

} // verus!
