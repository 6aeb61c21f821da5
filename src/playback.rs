//! Pacing of the notification cue: while the clip is decoded packet by packet
//! and queued for playback, decide when playback starts and how long to wait
//! for it to finish.

use vstd::prelude::*;

verus! {

/// Packets decoded before the decoder's pace is compared with real time.
pub const WARMUP_PACKETS: u64 = 100;

/// The channel layouts that playback takes.
#[derive(Debug, Clone, Copy, PartialEq, Eq)]
pub enum Layout {
    Mono,
    Stereo,
}

/// Why a clip cannot be played.
#[derive(Debug, Clone, Copy, PartialEq, Eq)]
pub enum PlaybackError {
    /// The clip has this many channels; only one or two are played.
    UnsupportedChannels(u8),
    /// The clip declares a sample rate of zero.
    ZeroSampleRate,
}

/// The layout of a clip with `channels` channels.
pub fn channel_layout(channels: u8) -> (r: Result<Layout, PlaybackError>)
    ensures
        r == (if channels == 1 {
            Ok(Layout::Mono)
        } else if channels == 2 {
            Ok(Layout::Stereo)
        } else {
            Err(PlaybackError::UnsupportedChannels(channels))
        }),
{
    if channels == 1 {
        Ok(Layout::Mono)
    } else if channels == 2 {
        Ok(Layout::Stereo)
    } else {
        Err(PlaybackError::UnsupportedChannels(channels))
    }
}

/// `a + b`, or `u64::MAX` where the sum does not fit.
pub open spec fn sat_add(a: int, b: int) -> int {
    if a + b <= u64::MAX {
        a + b
    } else {
        u64::MAX as int
    }
}

/// Whole milliseconds of playback in `samples` interleaved samples.
pub open spec fn play_ms(samples: int, channels: int, sample_rate: int) -> int {
    samples * 1000 / (channels * sample_rate)
}

/// `x`, or `u64::MAX` where it does not fit.
pub open spec fn clamp_u64(x: int) -> int {
    if x <= u64::MAX {
        x
    } else {
        u64::MAX as int
    }
}

/// The progress of decoding one clip.
pub struct Playback {
    /// 1 or 2.
    pub channels: u32,
    pub sample_rate: u32,
    /// Packets decoded so far.
    pub packets: u64,
    /// Interleaved samples decoded so far.
    pub samples: u64,
    /// When playback started, in milliseconds since decoding began.
    pub started_at: Option<u128>,
}

/// What to do with a decoded packet.
#[derive(Debug, Clone, Copy, PartialEq, Eq)]
pub enum PacketAction {
    /// Queue it.
    Queue,
    /// Queue it and start playback now: decoding runs ahead of real time.
    QueueAndPlay,
}

/// What to do once the clip is decoded.
#[derive(Debug, Clone, Copy, PartialEq, Eq)]
pub struct FinishPlan {
    /// Start playback now: it did not start while decoding.
    pub play_now: bool,
    /// Milliseconds to wait for playback to finish.
    pub wait_ms: u64,
}

impl Playback {
    pub open spec fn wf(&self) -> bool {
        &&& (self.channels == 1 || self.channels == 2)
        &&& self.sample_rate > 0
    }

    /// Whole milliseconds of playback decoded so far.
    pub open spec fn decoded_ms_spec(&self) -> int {
        play_ms(self.samples as int, self.channels as int, self.sample_rate as int)
    }

    /// Starts the decoding of a clip with `channels` channels at `sample_rate`
    /// samples per second per channel.
    pub fn new(channels: u8, sample_rate: u32) -> (r: Result<Playback, PlaybackError>)
        ensures
            match r {
                Ok(p) => {
                    &&& (channels == 1 || channels == 2)
                    &&& sample_rate > 0
                    &&& p.wf()
                    &&& p.channels == channels as u32
                    &&& p.sample_rate == sample_rate
                    &&& p.packets == 0
                    &&& p.samples == 0
                    &&& p.started_at is None
                },
                Err(e) => if channels != 1 && channels != 2 {
                    e == PlaybackError::UnsupportedChannels(channels)
                } else {
                    sample_rate == 0 && e == PlaybackError::ZeroSampleRate
                },
            },
    {
        match channel_layout(channels) {
            Err(e) => Err(e),
            Ok(_) => {
                if sample_rate == 0 {
                    Err(PlaybackError::ZeroSampleRate)
                } else {
                    Ok(
                        Playback {
                            channels: channels as u32,
                            sample_rate,
                            packets: 0,
                            samples: 0,
                            started_at: None,
                        },
                    )
                }
            },
        }
    }

    /// Whole milliseconds of playback decoded so far.
    pub fn decoded_ms(&self) -> (r: u128)
        requires
            self.wf(),
        ensures
            r == self.decoded_ms_spec(),
    {
        let rate = self.sample_rate as u128;
        let per_second: u128 = if self.channels == 1 {
            rate
        } else {
            rate + rate
        };
        assert(self.samples as int * 1000 <= u64::MAX as int * 1000) by (nonlinear_arith)
            requires
                self.samples <= u64::MAX,
        ;
        (self.samples as u128) * 1000 / per_second
    }

    /// Records a decoded packet of `n_samples` interleaved samples, decoded
    /// `elapsed_ms` milliseconds after decoding began. When the warm-up count
    /// of packets is reached and playback has not started, playback starts if
    /// decoding has kept ahead of real time.
    pub fn on_packet(&mut self, n_samples: u64, elapsed_ms: u128) -> (r: PacketAction)
        requires
            old(self).wf(),
        ensures
            final(self).wf(),
            final(self).channels == old(self).channels,
            final(self).sample_rate == old(self).sample_rate,
            final(self).packets == sat_add(old(self).packets as int, 1),
            final(self).samples == sat_add(old(self).samples as int, n_samples as int),
            (r == PacketAction::QueueAndPlay) == (final(self).packets == WARMUP_PACKETS
                && old(self).started_at is None && elapsed_ms < final(self).decoded_ms_spec()),
            final(self).started_at == (if r == PacketAction::QueueAndPlay {
                Some(elapsed_ms)
            } else {
                old(self).started_at
            }),
    {
        if self.packets < u64::MAX {
            self.packets = self.packets + 1;
        }
        if self.samples <= u64::MAX - n_samples {
            self.samples = self.samples + n_samples;
        } else {
            self.samples = u64::MAX;
        }
        if self.packets == WARMUP_PACKETS && self.started_at.is_none() && elapsed_ms
            < self.decoded_ms() {
            self.started_at = Some(elapsed_ms);
            PacketAction::QueueAndPlay
        } else {
            PacketAction::Queue
        }
    }

    /// What to do once the whole clip is decoded, `elapsed_ms` milliseconds
    /// after decoding began: start playback if it has not started, and wait
    /// for the part of the clip that has not yet played.
    pub fn on_finish(&self, elapsed_ms: u128) -> (r: FinishPlan)
        requires
            self.wf(),
        ensures
            r.play_now == (self.started_at is None),
            r.wait_ms == clamp_u64(
                match self.started_at {
                    None => self.decoded_ms_spec(),
                    Some(t) => if elapsed_ms >= t && elapsed_ms - t <= self.decoded_ms_spec() {
                        self.decoded_ms_spec() - (elapsed_ms - t)
                    } else if elapsed_ms < t {
                        self.decoded_ms_spec()
                    } else {
                        0
                    },
                },
            ),
    {
        let total = self.decoded_ms();
        let left: u128 = match self.started_at {
            None => total,
            Some(t) => {
                if elapsed_ms >= t && elapsed_ms - t <= total {
                    total - (elapsed_ms - t)
                } else if elapsed_ms < t {
                    total
                } else {
                    0
                }
            },
        };
        let wait_ms: u64 = if left <= u64::MAX as u128 {
            left as u64
        } else {
            u64::MAX
        };
        FinishPlan { play_now: self.started_at.is_none(), wait_ms }
    }
}

} // verus!
