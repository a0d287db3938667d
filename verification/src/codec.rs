//! Codec adapter configuration: which device formats the compressor accepts,
//! and the sizes that go with them.

use vstd::prelude::*;

verus! {

/// Upper bound, in bytes, for the compressed form of one frame. A buffer of
/// this size is safe for every supported format.
pub const MAX_ENCODED_LEN: usize = 4000;

/// The sample rates that the compressor accepts.
#[derive(Clone, Copy, Debug, PartialEq, Eq, Structural)]
pub enum SampleRate {
    Hz8000,
    Hz12000,
    Hz16000,
    Hz24000,
    Hz48000,
}

/// The channel layouts that the compressor accepts.
#[derive(Clone, Copy, Debug, PartialEq, Eq, Structural)]
pub enum Channels {
    Mono,
    Stereo,
}

/// Why a device format cannot be compressed.
#[derive(Clone, Copy, Debug, PartialEq, Eq, Structural)]
pub enum ConfigError {
    /// The sample rate, in Hz, is not one of 8000, 12000, 16000, 24000, 48000.
    UnsupportedSampleRate(u32),
    /// The channel count is neither 1 nor 2.
    UnsupportedChannelCount(u16),
}

/// A device format that the compressor accepts.
#[derive(Clone, Copy, Debug, PartialEq, Eq, Structural)]
pub struct CodecConfig {
    pub sample_rate: SampleRate,
    pub channels: Channels,
}

/// Whether the compressor accepts a sample rate given in Hz.
pub open spec fn supported_rate(hz: u32) -> bool {
    hz == 8000 || hz == 12000 || hz == 16000 || hz == 24000 || hz == 48000
}

/// Whether the compressor accepts a channel count.
pub open spec fn supported_channels(count: u16) -> bool {
    count == 1 || count == 2
}

/// What validating a device format gives: the configuration, or the first
/// thing that is wrong with the format, the sample rate before the channels.
pub open spec fn validated(sample_rate: u32, channel_count: u16) -> Result<
    CodecConfig,
    ConfigError,
> {
    match (SampleRate::spec_from_hz(sample_rate), Channels::spec_from_count(channel_count)) {
        (None, _) => Err(ConfigError::UnsupportedSampleRate(sample_rate)),
        (Some(_), None) => Err(ConfigError::UnsupportedChannelCount(channel_count)),
        (Some(rate), Some(channels)) => Ok(CodecConfig { sample_rate: rate, channels }),
    }
}

impl SampleRate {
    /// The rate in Hz.
    pub open spec fn spec_hz(self) -> u32 {
        match self {
            SampleRate::Hz8000 => 8000,
            SampleRate::Hz12000 => 12000,
            SampleRate::Hz16000 => 16000,
            SampleRate::Hz24000 => 24000,
            SampleRate::Hz48000 => 48000,
        }
    }

    /// The supported rate with the given number of Hz, if there is one.
    pub open spec fn spec_from_hz(hz: u32) -> Option<SampleRate> {
        if hz == 8000 {
            Some(SampleRate::Hz8000)
        } else if hz == 12000 {
            Some(SampleRate::Hz12000)
        } else if hz == 16000 {
            Some(SampleRate::Hz16000)
        } else if hz == 24000 {
            Some(SampleRate::Hz24000)
        } else if hz == 48000 {
            Some(SampleRate::Hz48000)
        } else {
            None
        }
    }

    /// The rate in Hz.
    #[verifier::when_used_as_spec(spec_hz)]
    pub fn hz(self) -> (hz: u32)
        ensures
            hz == self.spec_hz(),
            supported_rate(hz),
    {
        match self {
            SampleRate::Hz8000 => 8000,
            SampleRate::Hz12000 => 12000,
            SampleRate::Hz16000 => 16000,
            SampleRate::Hz24000 => 24000,
            SampleRate::Hz48000 => 48000,
        }
    }

    /// The supported rate with the given number of Hz, if there is one.
    #[verifier::when_used_as_spec(spec_from_hz)]
    pub fn from_hz(hz: u32) -> (rate: Option<SampleRate>)
        ensures
            rate == SampleRate::spec_from_hz(hz),
            rate is Some <==> supported_rate(hz),
            rate matches Some(r) ==> r.spec_hz() == hz,
    {
        if hz == 8000 {
            Some(SampleRate::Hz8000)
        } else if hz == 12000 {
            Some(SampleRate::Hz12000)
        } else if hz == 16000 {
            Some(SampleRate::Hz16000)
        } else if hz == 24000 {
            Some(SampleRate::Hz24000)
        } else if hz == 48000 {
            Some(SampleRate::Hz48000)
        } else {
            None
        }
    }
}

impl Channels {
    /// The number of channels.
    pub open spec fn spec_count(self) -> u16 {
        match self {
            Channels::Mono => 1,
            Channels::Stereo => 2,
        }
    }

    /// The layout with the given number of channels, if there is one.
    pub open spec fn spec_from_count(count: u16) -> Option<Channels> {
        if count == 1 {
            Some(Channels::Mono)
        } else if count == 2 {
            Some(Channels::Stereo)
        } else {
            None
        }
    }

    /// The number of channels.
    #[verifier::when_used_as_spec(spec_count)]
    pub fn count(self) -> (count: u16)
        ensures
            count == self.spec_count(),
            supported_channels(count),
    {
        match self {
            Channels::Mono => 1,
            Channels::Stereo => 2,
        }
    }

    /// The layout with the given number of channels, if there is one.
    #[verifier::when_used_as_spec(spec_from_count)]
    pub fn from_count(count: u16) -> (channels: Option<Channels>)
        ensures
            channels == Channels::spec_from_count(count),
            channels is Some <==> supported_channels(count),
            channels matches Some(c) ==> c.spec_count() == count,
    {
        if count == 1 {
            Some(Channels::Mono)
        } else if count == 2 {
            Some(Channels::Stereo)
        } else {
            None
        }
    }
}

impl CodecConfig {
    /// Validates a device format for compression. Fails on a sample rate
    /// outside the supported set, and else on a channel count outside it.
    pub fn new(sample_rate: u32, channel_count: u16) -> (config: Result<CodecConfig, ConfigError>)
        ensures
            config == validated(sample_rate, channel_count),
            config is Ok <==> supported_rate(sample_rate) && supported_channels(channel_count),
            config matches Ok(c) ==> c.sample_rate.spec_hz() == sample_rate
                && c.channels.spec_count() == channel_count,
    {
        match SampleRate::from_hz(sample_rate) {
            None => Err(ConfigError::UnsupportedSampleRate(sample_rate)),
            Some(rate) => match Channels::from_count(channel_count) {
                None => Err(ConfigError::UnsupportedChannelCount(channel_count)),
                Some(channels) => Ok(CodecConfig { sample_rate: rate, channels }),
            },
        }
    }
}

} // verus!
