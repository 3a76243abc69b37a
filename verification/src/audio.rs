//! Audio as the engine holds it: the format of a model's output, a chunk of
//! 16-bit samples, and what a caller may ask of the audio of a request.

use vstd::prelude::*;
use crate::error::{ErrorKind, ErrorView, SonataError};

verus! {

/// Format of the audio that a model produces. It is fixed for the lifetime of a model.
#[derive(Clone, Copy, Debug, PartialEq, Eq, Structural)]
pub struct AudioInfo {
    pub sample_rate: usize,
    pub num_channels: usize,
    pub sample_width: usize,
}

impl AudioInfo {
    /// Samples a second.
    pub fn get_sample_rate(&self) -> (rate: usize)
        ensures
            rate == self.sample_rate,
    {
        self.sample_rate
    }

    /// The number of channels.
    pub fn get_num_channels(&self) -> (channels: usize)
        ensures
            channels == self.num_channels,
    {
        self.num_channels
    }

    /// Bytes to a sample.
    pub fn get_sample_width(&self) -> (width: usize)
        ensures
            width == self.sample_width,
    {
        self.sample_width
    }
}

/// What a caller asks of the audio of one request. A field that is `None`
/// leaves the model's own default in force.
#[derive(Clone, Copy, Debug, PartialEq, Eq, Structural)]
pub struct AudioOutputConfig {
    pub rate: Option<u8>,
    pub volume: Option<u8>,
    pub pitch: Option<u8>,
    pub appended_silence_ms: Option<u32>,
}

/// One unit of produced audio as contracts see it.
pub ghost struct AudioView {
    pub samples: Seq<i16>,
    pub info: AudioInfo,
    pub inference_ms: Option<u64>,
}

/// One unit of produced audio: 16-bit samples, their format, and the time
/// that the model took to compute them, where that was measured.
#[derive(Clone, Debug, PartialEq, Eq)]
pub struct WaveSamples {
    pub samples: Vec<i16>,
    pub info: AudioInfo,
    pub inference_ms: Option<u64>,
}

impl View for WaveSamples {
    type V = AudioView;

    open spec fn view(&self) -> AudioView {
        AudioView { samples: self.samples@, info: self.info, inference_ms: self.inference_ms }
    }
}

/// How the time of inference relates to the time that the audio plays:
/// `inference_ms` over `duration_ms`, the latter never zero.
#[derive(Clone, Copy, Debug, PartialEq, Eq, Structural)]
pub struct RealTimeFactor {
    pub inference_ms: u64,
    pub duration_ms: u128,
}

/// A sample as the unsigned number that its two bytes spell.
pub open spec fn unsigned_of(sample: i16) -> int {
    if sample < 0 {
        sample + 65536
    } else {
        sample as int
    }
}

/// The first byte of a sample in little-endian order.
pub open spec fn low_byte(sample: i16) -> u8 {
    (unsigned_of(sample) % 256) as u8
}

/// The second byte of a sample in little-endian order.
pub open spec fn high_byte(sample: i16) -> u8 {
    (unsigned_of(sample) / 256) as u8
}

/// The samples as little-endian PCM: two bytes for each, low byte first.
pub open spec fn wave_bytes(samples: Seq<i16>) -> Seq<u8> {
    Seq::new(
        2 * samples.len(),
        |k: int|
            if k % 2 == 0 {
                low_byte(samples[k / 2])
            } else {
                high_byte(samples[k / 2])
            },
    )
}

/// How long `count` samples play at `sample_rate` samples a second, in whole
/// milliseconds.
pub open spec fn duration_of(count: nat, sample_rate: nat) -> nat
    recommends
        sample_rate > 0,
{
    (count * 1000) / sample_rate
}

/// How many samples make `ms` milliseconds at `sample_rate` samples a second.
pub open spec fn silence_len(ms: u32, sample_rate: usize) -> nat {
    ((ms as nat) * (sample_rate as nat)) / 1000
}

/// `count` samples of silence.
pub open spec fn silence(count: nat) -> Seq<i16> {
    Seq::new(count, |k: int| 0i16)
}

impl WaveSamples {
    /// Audio of the given samples, format and inference time.
    pub fn new(samples: Vec<i16>, info: AudioInfo, inference_ms: Option<u64>) -> (audio: Self)
        ensures
            audio.samples == samples,
            audio.info == info,
            audio.inference_ms == inference_ms,
    {
        WaveSamples { samples, info, inference_ms }
    }

    /// The samples as little-endian PCM bytes.
    pub fn get_wave_bytes(&self) -> (bytes: Vec<u8>)
        ensures
            bytes@ == wave_bytes(self@.samples),
    {
        let mut bytes: Vec<u8> = Vec::new();
        let mut i: usize = 0;
        while i < self.samples.len()
            invariant
                i <= self.samples.len(),
                bytes@ =~= wave_bytes(self.samples@.take(i as int)),
            decreases self.samples.len() - i,
        {
            let sample: i16 = self.samples[i];
            let unsigned: i32 = if sample < 0 {
                sample as i32 + 65536
            } else {
                sample as i32
            };
            bytes.push((unsigned % 256) as u8);
            bytes.push((unsigned / 256) as u8);
            i = i + 1;
        }
        proof {
            assert(self.samples@.take(i as int) =~= self.samples@);
        }
        bytes
    }

    /// Samples a second.
    pub fn sample_rate(&self) -> (rate: usize)
        ensures
            rate == self@.info.sample_rate,
    {
        self.info.sample_rate
    }

    /// The number of channels.
    pub fn num_channels(&self) -> (channels: usize)
        ensures
            channels == self@.info.num_channels,
    {
        self.info.num_channels
    }

    /// Bytes to a sample.
    pub fn sample_width(&self) -> (width: usize)
        ensures
            width == self@.info.sample_width,
    {
        self.info.sample_width
    }

    /// The time that the model took to compute this audio, where it was measured.
    pub fn inference_ms(&self) -> (ms: Option<u64>)
        ensures
            ms == self@.inference_ms,
    {
        self.inference_ms
    }

    /// The time that this audio plays, in whole milliseconds; `None` for a
    /// sample rate of zero, at which no duration is defined.
    pub fn duration_ms(&self) -> (ms: Option<u128>)
        ensures
            self@.info.sample_rate == 0 ==> ms.is_none(),
            self@.info.sample_rate > 0 ==> ms == Some(
                duration_of(self@.samples.len(), self@.info.sample_rate as nat) as u128,
            ),
            self@.info.sample_rate > 0 ==> duration_of(
                self@.samples.len(),
                self@.info.sample_rate as nat,
            ) <= u128::MAX,
    {
        if self.info.sample_rate == 0 {
            return None;
        }
        let count: u128 = self.samples.len() as u128;
        let rate: u128 = self.info.sample_rate as u128;
        assert(count * 1000 <= u128::MAX) by (nonlinear_arith)
            requires
                count <= u64::MAX,
        ;
        Some((count * 1000) / rate)
    }

    /// Inference time over playing time. `None` where the inference time was
    /// not measured or the audio plays for less than a millisecond.
    pub fn real_time_factor(&self) -> (factor: Option<RealTimeFactor>)
        ensures
            factor.is_some() <==> (self@.inference_ms.is_some() && self@.info.sample_rate > 0
                && duration_of(self@.samples.len(), self@.info.sample_rate as nat) > 0),
            factor.is_some() ==> factor.unwrap().inference_ms == self@.inference_ms.unwrap()
                && factor.unwrap().duration_ms == duration_of(
                self@.samples.len(),
                self@.info.sample_rate as nat,
            ),
    {
        match (self.inference_ms, self.duration_ms()) {
            (Some(inference_ms), Some(duration_ms)) => {
                if duration_ms > 0 {
                    Some(RealTimeFactor { inference_ms, duration_ms })
                } else {
                    None
                }
            },
            _ => None,
        }
    }
}

impl AudioOutputConfig {
    /// A configuration of the four given fields, each of which may be absent.
    pub fn new(
        rate: Option<u8>,
        volume: Option<u8>,
        pitch: Option<u8>,
        appended_silence_ms: Option<u32>,
    ) -> (config: Self)
        ensures
            config == (AudioOutputConfig { rate, volume, pitch, appended_silence_ms }),
    {
        AudioOutputConfig { rate, volume, pitch, appended_silence_ms }
    }
}

/// Whether the audio still fits in memory once the silence that `config` asks
/// for stands behind it.
pub open spec fn silence_fits(config: Option<AudioOutputConfig>, audio: AudioView) -> bool {
    match config {
        Some(AudioOutputConfig { appended_silence_ms: Some(ms), .. }) => audio.samples.len()
            + silence_len(ms, audio.info.sample_rate) <= usize::MAX,
        _ => true,
    }
}

/// The audio with the silence behind it that `config` asks for. Nothing else
/// of it changes.
pub open spec fn with_silence(config: Option<AudioOutputConfig>, audio: AudioView) -> AudioView {
    match config {
        Some(AudioOutputConfig { appended_silence_ms: Some(ms), .. }) => AudioView {
            samples: audio.samples + silence(silence_len(ms, audio.info.sample_rate)),
            ..audio
        },
        _ => audio,
    }
}

/// The failure reported for silence that does not fit in memory.
pub open spec fn silence_overflow() -> ErrorView {
    ErrorView {
        kind: ErrorKind::Operation,
        message: "appended silence does not fit in memory"@,
    }
}

/// Puts the trailing silence that `config` asks for behind `audio`. Rate,
/// volume and pitch are signal processing on the samples, which the caller
/// performs before it hands the audio over.
pub fn append_silence(config: &Option<AudioOutputConfig>, audio: WaveSamples) -> (out: Result<
    WaveSamples,
    SonataError,
>)
    ensures
        silence_fits(*config, audio@) ==> out.is_ok() && out.unwrap()@ == with_silence(
            *config,
            audio@,
        ),
        !silence_fits(*config, audio@) ==> out.is_err() && out.unwrap_err()@ == silence_overflow(),
{
    let ms: u32 = match config {
        Some(c) => match c.appended_silence_ms {
            Some(ms) => ms,
            None => {
                return Ok(audio);
            },
        },
        None => {
            return Ok(audio);
        },
    };
    let rate: u128 = audio.info.sample_rate as u128;
    assert((ms as u128) * rate <= u128::MAX) by (nonlinear_arith)
        requires
            ms <= u32::MAX,
            rate <= u64::MAX,
    ;
    let count: u128 = ((ms as u128) * rate) / 1000;
    let room: u128 = (usize::MAX - audio.samples.len()) as u128;
    if count > room {
        return Err(SonataError::Operation(String::from_str("appended silence does not fit in memory")));
    }
    let ghost before = audio@;
    let mut audio = audio;
    let mut added: u128 = 0;
    while added < count
        invariant
            added <= count,
            count == silence_len(ms, before.info.sample_rate),
            before.samples.len() + count <= usize::MAX,
            audio.info == before.info,
            audio.inference_ms == before.inference_ms,
            audio.samples@ =~= before.samples + silence(added as nat),
        decreases count - added,
    {
        audio.samples.push(0i16);
        added = added + 1;
    }
    Ok(audio)
}

} // verus!
