//! The shape of a connection.

use vstd::prelude::*;

use super::rng::Probability;

verus! {

/// The shape of one direction of the connection between two peers.
///
/// One-way values, in nanoseconds: a `delay` of 50 ms on both directions shows up as a ~100 ms
/// round trip.
///
/// `duplicate`, `reorder` and `max_message_size` apply to unreliable packets only. A reliable
/// transport deduplicates, orders and fragments, so on the reliable channel an oversize packet is
/// delivered, and the other two never happen.
#[derive(Debug, Clone, Copy, PartialEq, Eq)]
pub struct Link {
    /// One-way transit time.
    pub delay: u64,
    /// Maximum extra delay applied per packet, uniform in `0..=jitter`.
    pub jitter: u64,
    /// How likely a packet needs retransmitting (reliable) or is lost (unreliable).
    pub loss: Probability,
    /// How likely an unreliable packet is delivered twice, one frame apart.
    pub duplicate: Probability,
    /// How likely an unreliable packet overtakes the one sent before it on the same link.
    ///
    /// Jitter already reorders unreliable packets once it exceeds a frame; this knob does it
    /// without any delay at all, so a test about reordering does not have to be a test about
    /// latency as well.
    pub reorder: Probability,
    /// Largest unreliable packet the link carries. Anything bigger is dropped.
    pub max_message_size: Option<usize>,
}

/// Nanoseconds in a millisecond.
pub const MILLISECOND: u64 = 1_000_000;

/// No delay, no jitter, no loss.
pub open spec fn perfect_link() -> Link {
    Link {
        delay: 0,
        jitter: 0,
        loss: Probability(0),
        duplicate: Probability(0),
        reorder: Probability(0),
        max_message_size: None,
    }
}

/// Wired broadband.
pub open spec fn cable_link() -> Link {
    Link {
        delay: 15_000_000,
        jitter: 3_000_000,
        loss: Probability(16_778),
        ..perfect_link()
    }
}

/// Typical mobile.
pub open spec fn four_g_link() -> Link {
    Link {
        delay: 40_000_000,
        jitter: 15_000_000,
        loss: Probability(83_887),
        ..perfect_link()
    }
}

/// Congested wifi.
pub open spec fn bad_wifi_link() -> Link {
    Link {
        delay: 60_000_000,
        jitter: 40_000_000,
        loss: Probability(335_545),
        duplicate: Probability(167_773),
        ..perfect_link()
    }
}

/// Geostationary satellite.
pub open spec fn satellite_link() -> Link {
    Link {
        delay: 300_000_000,
        jitter: 20_000_000,
        loss: Probability(167_773),
        ..perfect_link()
    }
}

impl Default for Link {
    fn default() -> (link: Self)
        ensures
            link == perfect_link(),
    {
        Link::perfect()
    }
}

impl Link {
    /// No delay, no jitter, no loss. Packets arrive on the next frame.
    pub fn perfect() -> (link: Self)
        ensures
            link == perfect_link(),
    {
        Link {
            delay: 0,
            jitter: 0,
            loss: Probability(0),
            duplicate: Probability(0),
            reorder: Probability(0),
            max_message_size: None,
        }
    }

    /// A fixed one-way delay.
    pub fn delayed(delay: u64) -> (link: Self)
        ensures
            link == (Link { delay, ..perfect_link() }),
    {
        Link { delay, ..Link::perfect() }
    }

    /// Wired broadband: 15 ms, 3 ms of jitter, a thousandth lost.
    pub fn cable() -> (link: Self)
        ensures
            link == cable_link(),
    {
        Link {
            delay: 15 * MILLISECOND,
            jitter: 3 * MILLISECOND,
            loss: Probability(16_778),
            ..Link::perfect()
        }
    }

    /// Typical mobile: 40 ms, 15 ms of jitter, five thousandths lost.
    pub fn four_g() -> (link: Self)
        ensures
            link == four_g_link(),
    {
        Link {
            delay: 40 * MILLISECOND,
            jitter: 15 * MILLISECOND,
            loss: Probability(83_887),
            ..Link::perfect()
        }
    }

    /// Congested wifi: the jitter is the interesting part, and there is an occasional duplicate.
    pub fn bad_wifi() -> (link: Self)
        ensures
            link == bad_wifi_link(),
    {
        Link {
            delay: 60 * MILLISECOND,
            jitter: 40 * MILLISECOND,
            loss: Probability(335_545),
            duplicate: Probability(167_773),
            ..Link::perfect()
        }
    }

    /// Geostationary satellite: 300 ms, 20 ms of jitter, a hundredth lost.
    pub fn satellite() -> (link: Self)
        ensures
            link == satellite_link(),
    {
        Link {
            delay: 300 * MILLISECOND,
            jitter: 20 * MILLISECOND,
            loss: Probability(167_773),
            ..Link::perfect()
        }
    }

    pub fn with_delay(self, delay: u64) -> (link: Self)
        ensures
            link == (Link { delay, ..self }),
    {
        Link { delay, ..self }
    }

    pub fn with_jitter(self, jitter: u64) -> (link: Self)
        ensures
            link == (Link { jitter, ..self }),
    {
        Link { jitter, ..self }
    }

    pub fn with_loss(self, loss: Probability) -> (link: Self)
        ensures
            link == (Link { loss, ..self }),
    {
        Link { loss, ..self }
    }

    pub fn with_duplicate(self, duplicate: Probability) -> (link: Self)
        ensures
            link == (Link { duplicate, ..self }),
    {
        Link { duplicate, ..self }
    }

    pub fn with_reorder(self, reorder: Probability) -> (link: Self)
        ensures
            link == (Link { reorder, ..self }),
    {
        Link { reorder, ..self }
    }

    pub fn with_max_message_size(self, bytes: usize) -> (link: Self)
        ensures
            link == (Link { max_message_size: Some(bytes), ..self }),
    {
        Link { max_message_size: Some(bytes), ..self }
    }

    /// The round trip a symmetric pair of this link implies, which is what a ping would measure.
    pub fn round_trip(&self) -> (nanos: u128)
        ensures
            nanos == 2 * self.delay,
    {
        2 * self.delay as u128
    }
}

/// How many frames of `frame_duration` nanoseconds `duration` is, rounded to the nearest, halves
/// up. A duration that is not zero is endless in frames that last no time.
pub open spec fn frames_in(duration: int, frame_duration: int) -> int {
    if frame_duration > 0 {
        (2 * duration + frame_duration) / (2 * frame_duration)
    } else if duration == 0 {
        0
    } else {
        u64::MAX as int
    }
}

/// How many frames `duration` nanoseconds are, as far as a `u64` counts.
pub fn duration_to_frames(duration: u128, frame_duration: u64) -> (frames: u64)
    requires
        duration <= 2 * u64::MAX,
    ensures
        frames_in(duration as int, frame_duration as int) <= u64::MAX ==> frames == frames_in(
            duration as int,
            frame_duration as int,
        ),
        frames_in(duration as int, frame_duration as int) > u64::MAX ==> frames == u64::MAX,
{
    if frame_duration == 0 {
        if duration == 0 {
            0
        } else {
            u64::MAX
        }
    } else {
        let frames: u128 = (2 * duration + frame_duration as u128) / (2 * frame_duration as u128);
        if frames > u64::MAX as u128 {
            u64::MAX
        } else {
            frames as u64
        }
    }
}

} // verus!
