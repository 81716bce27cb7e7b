//! Which device to open, and in which configuration.

use vstd::prelude::*;

use crate::error::AudioError;
use crate::text::{str_eq, strs};

verus! {

/// The type of a device's samples.
#[derive(Debug, Clone, Copy, PartialEq, Eq, Structural)]
pub enum SampleFormat {
    /// Floats of 32 bits.
    F32,
    /// Signed integers of 16 bits.
    I16,
    /// Unsigned integers of 16 bits.
    U16,
    /// Anything else.
    Other,
}

/// The buffer sizes that a device supports, in frames.
#[derive(Debug, Clone, Copy, PartialEq, Eq, Structural)]
pub struct BufferRange {
    /// The smallest one.
    pub min: u32,
    /// The largest one.
    pub max: u32,
}

/// A range of configurations that a device supports.
#[derive(Debug, Clone, Copy, PartialEq, Eq, Structural)]
pub struct ConfigRange {
    /// The type of the samples.
    pub format: SampleFormat,
    /// The number of channels.
    pub channels: u16,
    /// The lowest sample rate.
    pub min_rate: u32,
    /// The highest sample rate.
    pub max_rate: u32,
    /// The buffer sizes, where the device says.
    pub buffer: Option<BufferRange>,
}

/// A configuration to open a device in.
#[derive(Debug, Clone, Copy, PartialEq, Eq, Structural)]
pub struct SupportedConfig {
    /// The type of the samples.
    pub format: SampleFormat,
    /// The number of channels.
    pub channels: u16,
    /// The sample rate.
    pub rate: u32,
    /// The buffer sizes, where the device says.
    pub buffer: Option<BufferRange>,
}

/// The configuration of a range at a rate.
pub open spec fn at_rate(range: ConfigRange, rate: u32) -> SupportedConfig {
    SupportedConfig { format: range.format, channels: range.channels, rate, buffer: range.buffer }
}

/// The first range of a format, from `i` on, that covers `rate` where one is
/// asked for.
pub open spec fn first_range(
    ranges: Seq<ConfigRange>,
    format: SampleFormat,
    rate: Option<u32>,
    i: int,
) -> Option<ConfigRange>
    decreases ranges.len() - i,
{
    if i < 0 || i >= ranges.len() {
        None
    } else if ranges[i].format == format && (match rate {
        Some(r) => ranges[i].min_rate <= r <= ranges[i].max_rate,
        None => true,
    }) {
        Some(ranges[i])
    } else {
        first_range(ranges, format, rate, i + 1)
    }
}

/// The choice among the ranges of one format: the first that covers the
/// preferred rate, else the first at its highest rate.
pub open spec fn choice_of(
    ranges: Seq<ConfigRange>,
    format: SampleFormat,
    preferred: u32,
) -> Option<SupportedConfig> {
    match first_range(ranges, format, Some(preferred), 0) {
        Some(range) => Some(at_rate(range, preferred)),
        None => match first_range(ranges, format, None, 0) {
            Some(range) => Some(at_rate(range, range.max_rate)),
            None => None,
        },
    }
}

/// The choice among all ranges: floats, else signed, else unsigned integers.
pub open spec fn negotiated(ranges: Seq<ConfigRange>, preferred: u32) -> Option<SupportedConfig> {
    match choice_of(ranges, SampleFormat::F32, preferred) {
        Some(c) => Some(c),
        None => match choice_of(ranges, SampleFormat::I16, preferred) {
            Some(c) => Some(c),
            None => choice_of(ranges, SampleFormat::U16, preferred),
        },
    }
}

fn choose_in(ranges: &Vec<ConfigRange>, format: SampleFormat, preferred: u32) -> (r: Option<
    SupportedConfig,
>)
    ensures
        r == choice_of(ranges@, format, preferred),
{
    let mut fallback: Option<SupportedConfig> = None;
    let mut i: usize = 0;
    while i < ranges.len()
        invariant
            i <= ranges@.len(),
            first_range(ranges@, format, Some(preferred), 0) == first_range(
                ranges@,
                format,
                Some(preferred),
                i as int,
            ),
            match fallback {
                Some(c) => match first_range(ranges@, format, None, 0) {
                    Some(range) => c == at_rate(range, range.max_rate),
                    None => false,
                },
                None => true,
            },
            fallback is None ==> first_range(ranges@, format, None, 0) == first_range(
                ranges@,
                format,
                None,
                i as int,
            ),
        decreases ranges@.len() - i,
    {
        let range = ranges[i];
        if range.format == format {
            if range.min_rate <= preferred && preferred <= range.max_rate {
                return Some(
                    SupportedConfig {
                        format: range.format,
                        channels: range.channels,
                        rate: preferred,
                        buffer: range.buffer,
                    },
                );
            }
            if fallback.is_none() {
                fallback =
                Some(
                    SupportedConfig {
                        format: range.format,
                        channels: range.channels,
                        rate: range.max_rate,
                        buffer: range.buffer,
                    },
                );
            }
        }
        i += 1;
    }
    fallback
}

/// Picks a supported stream config: prefers f32, then i16, then u16; within a
/// format prefers `preferred_rate` when a range covers it, else the first
/// range's maximum sample rate. Any channel count is accepted (capture mixes
/// down to mono; playback duplicates mono across channels).
pub fn negotiate_config(ranges: &Vec<ConfigRange>, preferred_rate: u32) -> (r: Option<
    SupportedConfig,
>)
    ensures
        r == negotiated(ranges@, preferred_rate),
{
    let float = choose_in(ranges, SampleFormat::F32, preferred_rate);
    if float.is_some() {
        return float;
    }
    let signed = choose_in(ranges, SampleFormat::I16, preferred_rate);
    if signed.is_some() {
        return signed;
    }
    choose_in(ranges, SampleFormat::U16, preferred_rate)
}

/// A device with a float configuration is opened in one: a range of floats is
/// never passed over for one of integers, and the choice is one of the ranges,
/// at the preferred rate where it covers that, else at its highest.
pub proof fn law_floats_are_preferred(ranges: Seq<ConfigRange>, preferred: u32, i: int)
    requires
        0 <= i < ranges.len(),
        ranges[i].format == SampleFormat::F32,
    ensures
        match negotiated(ranges, preferred) {
            Some(c) => c.format == SampleFormat::F32 && exists|k: int|
                0 <= k < ranges.len() && c == at_rate(
                    #[trigger] ranges[k],
                    if ranges[k].min_rate <= preferred <= ranges[k].max_rate {
                        preferred
                    } else {
                        ranges[k].max_rate
                    },
                ),
            None => false,
        },
{
    lemma_first_is_found(ranges, SampleFormat::F32, None, 0, i);
    lemma_first_is_one(ranges, SampleFormat::F32, None, 0);
    lemma_first_is_one(ranges, SampleFormat::F32, Some(preferred), 0);
    match first_range(ranges, SampleFormat::F32, Some(preferred), 0) {
        Some(range) => {
            let k = choose|k: int| 0 <= k < ranges.len() && #[trigger] ranges[k] == range;
            assert(negotiated(ranges, preferred) == Some(at_rate(ranges[k], preferred)));
        },
        None => {
            let range = first_range(ranges, SampleFormat::F32, None, 0)->0;
            let k = choose|k: int| 0 <= k < ranges.len() && #[trigger] ranges[k] == range;
            lemma_none_covers(ranges, SampleFormat::F32, preferred, 0, k);
            assert(negotiated(ranges, preferred) == Some(at_rate(ranges[k], ranges[k].max_rate)));
        },
    }
}

proof fn lemma_none_covers(
    ranges: Seq<ConfigRange>,
    format: SampleFormat,
    rate: u32,
    from: int,
    k: int,
)
    requires
        0 <= from <= k < ranges.len(),
        ranges[k].format == format,
        first_range(ranges, format, Some(rate), from) is None,
    ensures
        !(ranges[k].min_rate <= rate <= ranges[k].max_rate),
    decreases k - from,
{
    if from < k {
        lemma_none_covers(ranges, format, rate, from + 1, k);
    }
}

proof fn lemma_first_is_found(
    ranges: Seq<ConfigRange>,
    format: SampleFormat,
    rate: Option<u32>,
    from: int,
    i: int,
)
    requires
        0 <= from <= i < ranges.len(),
        ranges[i].format == format,
        rate is None,
    ensures
        first_range(ranges, format, rate, from) is Some,
    decreases i - from,
{
    if from < i {
        lemma_first_is_found(ranges, format, rate, from + 1, i);
    }
}

proof fn lemma_first_is_one(
    ranges: Seq<ConfigRange>,
    format: SampleFormat,
    rate: Option<u32>,
    from: int,
)
    requires
        0 <= from,
    ensures
        match first_range(ranges, format, rate, from) {
            Some(range) => range.format == format && (exists|k: int|
                from <= k < ranges.len() && #[trigger] ranges[k] == range) && (match rate {
                Some(r) => range.min_rate <= r <= range.max_rate,
                None => true,
            }),
            None => true,
        },
    decreases ranges.len() - from,
{
    if from < ranges.len() {
        lemma_first_is_one(ranges, format, rate, from + 1);
    }
}

/// A device's supported config ranges. A device that cannot even report
/// configurations is unusable (headless machines commonly list such a phantom
/// "default" device).
pub fn config_ranges(reported: Option<Vec<ConfigRange>>) -> (r: Result<
    Vec<ConfigRange>,
    AudioError,
>)
    ensures
        match r {
            Ok(ranges) => reported == Some(ranges),
            Err(e) => reported is None && e is NoDevice,
        },
{
    match reported {
        Some(ranges) => Ok(ranges),
        None => Err(AudioError::NoDevice),
    }
}

/// Best-effort device name: its description, else what it is displayed as
/// where that is not empty.
pub fn device_name(description: Option<String>, displayed: String) -> (r: Option<String>)
    ensures
        match description {
            Some(name) => r == Some(name),
            None => if displayed@.len() == 0 {
                r is None
            } else {
                r == Some(displayed)
            },
        },
{
    match description {
        Some(name) => Some(name),
        None => {
            if displayed.as_str().unicode_len() == 0 {
                None
            } else {
                Some(displayed)
            }
        },
    }
}

/// Which device is opened.
#[derive(Debug, Clone, Copy, PartialEq, Eq, Structural)]
pub enum DevicePick {
    /// The one at this place of the list.
    Listed(usize),
    /// The default one.
    Default,
}

/// Whether a device goes by a name.
pub open spec fn goes_by(device: Option<String>, name: Seq<char>) -> bool {
    match device {
        Some(n) => n@ == name,
        None => false,
    }
}

/// Picks the device named `name` from the names of `devices`, or falls back to
/// the default when no name is configured. Shared by capture and playback
/// setup.
pub fn pick_device(
    name: Option<&str>,
    devices: Result<Vec<Option<String>>, String>,
    has_default: bool,
) -> (r: Result<DevicePick, AudioError>)
    ensures
        match name {
            None => match r {
                Ok(pick) => has_default && pick == DevicePick::Default,
                Err(e) => !has_default && e is NoDevice,
            },
            Some(name) => match devices {
                Err(reason) => r == Err::<DevicePick, AudioError>(AudioError::StreamConfig(reason)),
                Ok(list) => match r {
                    Ok(DevicePick::Listed(i)) => i < list@.len() && goes_by(list@[i as int], name@)
                        && forall|k: int| 0 <= k < i ==> !goes_by(#[trigger] list@[k], name@),
                    Ok(DevicePick::Default) => false,
                    Err(e) => e is NoDevice && forall|k: int|
                        0 <= k < list@.len() ==> !goes_by(#[trigger] list@[k], name@),
                },
            },
        },
{
    match name {
        None => {
            if has_default {
                Ok(DevicePick::Default)
            } else {
                Err(AudioError::NoDevice)
            }
        },
        Some(wanted) => match devices {
            Err(reason) => Err(AudioError::StreamConfig(reason)),
            Ok(list) => {
                let mut i: usize = 0;
                while i < list.len()
                    invariant
                        name == Some(wanted),
                        devices == Ok::<Vec<Option<String>>, String>(list),
                        i <= list@.len(),
                        forall|k: int| 0 <= k < i ==> !goes_by(#[trigger] list@[k], wanted@),
                    decreases list@.len() - i,
                {
                    if let Some(n) = &list[i] {
                        if str_eq(n.as_str(), wanted) {
                            return Ok(DevicePick::Listed(i));
                        }
                    }
                    i += 1;
                }
                Err(AudioError::NoDevice)
            },
        },
    }
}

/// The names of devices, each behind its direction.
pub open spec fn labelled(label: Seq<char>, devices: Seq<Option<String>>) -> Seq<Seq<char>> {
    devices.map_values(
        |d: Option<String>|
            label + (match d {
                Some(n) => n@,
                None => "<unknown>"@,
            }),
    )
}

fn push_labelled(out: &mut Vec<String>, label: &str, devices: &Vec<Option<String>>)
    ensures
        strs(final(out)@) == strs(old(out)@) + labelled(label@, devices@),
{
    let ghost start = strs(out@);
    let mut i: usize = 0;
    assert(strs(out@) =~= start + labelled(label@, devices@).take(0));
    while i < devices.len()
        invariant
            i <= devices@.len(),
            strs(out@) == start + labelled(label@, devices@).take(i as int),
        decreases devices@.len() - i,
    {
        let ghost before = out@;
        let name: &str = match &devices[i] {
            Some(n) => n.as_str(),
            None => "<unknown>",
        };
        let line = label.to_owned().concat(name);
        out.push(line);
        assert(strs(out@) =~= strs(before).push(line@));
        assert(labelled(label@, devices@).take(i + 1) =~= labelled(label@, devices@).take(
            i as int,
        ).push(line@));
        i += 1;
        assert(strs(out@) =~= start + labelled(label@, devices@).take(i as int));
    }
    assert(labelled(label@, devices@).take(i as int) =~= labelled(label@, devices@));
}

/// Lists input and output device names, for `--list-devices`. Headless-safe:
/// an empty list when no devices exist.
pub fn list_devices(inputs: &Vec<Option<String>>, outputs: &Vec<Option<String>>) -> (r: Vec<String>)
    ensures
        strs(r@) == labelled("input: "@, inputs@) + labelled("output: "@, outputs@),
{
    let mut names: Vec<String> = Vec::new();
    assert(strs(names@) =~= Seq::empty());
    push_labelled(&mut names, "input: ", inputs);
    assert(strs(names@) =~= labelled("input: "@, inputs@));
    push_labelled(&mut names, "output: ", outputs);
    names
}

/// Whether a range of a format covers a rate.
pub open spec fn covers(range: ConfigRange, format: SampleFormat, rate: u32) -> bool {
    range.format == format && range.min_rate <= rate <= range.max_rate
}

proof fn lemma_first_range(
    ranges: Seq<ConfigRange>,
    format: SampleFormat,
    rate: Option<u32>,
    i: int,
    k: int,
)
    requires
        0 <= i <= ranges.len(),
    ensures
        i <= k < ranges.len() && ranges[k].format == format && (rate matches Some(r)
            ==> ranges[k].min_rate <= r <= ranges[k].max_rate) && (forall|j: int|
            i <= j < k ==> (#[trigger] ranges[j]).format != format || (rate is Some && !(
            ranges[j].min_rate <= rate->0 <= ranges[j].max_rate))) ==> first_range(
            ranges,
            format,
            rate,
            i,
        ) == Some(ranges[k]),
        (forall|j: int|
            i <= j < ranges.len() ==> (#[trigger] ranges[j]).format != format || (rate is Some && !(
            ranges[j].min_rate <= rate->0 <= ranges[j].max_rate))) ==> first_range(
            ranges,
            format,
            rate,
            i,
        ) is None,
    decreases ranges.len() - i,
{
    if i < ranges.len() {
        lemma_first_range(ranges, format, rate, i + 1, k);
    }
}

/// The preferred rate is taken where a range of the format has it, from the
/// first such range; without one the first range of the format is taken, at its
/// highest rate. This holds of floats, of signed integers where there are no
/// floats, and of unsigned ones where there is neither; a device without any of
/// the three is refused.
pub proof fn law_preferred_rates_are_taken(
    ranges: Seq<ConfigRange>,
    format: SampleFormat,
    preferred: u32,
    k: int,
)
    requires
        format == SampleFormat::I16 || format == SampleFormat::U16 ==> forall|j: int|
            0 <= j < ranges.len() ==> (#[trigger] ranges[j]).format != SampleFormat::F32,
        format == SampleFormat::U16 ==> forall|j: int|
            0 <= j < ranges.len() ==> (#[trigger] ranges[j]).format != SampleFormat::I16,
        format == SampleFormat::F32 || format == SampleFormat::I16 || format == SampleFormat::U16,
    ensures
        0 <= k < ranges.len() && covers(ranges[k], format, preferred) && (forall|j: int|
            0 <= j < k ==> !covers(#[trigger] ranges[j], format, preferred)) ==> negotiated(
            ranges,
            preferred,
        ) == Some(
            SupportedConfig {
                format,
                channels: ranges[k].channels,
                rate: preferred,
                buffer: ranges[k].buffer,
            },
        ),
        0 <= k < ranges.len() && ranges[k].format == format && (forall|j: int|
            0 <= j < k ==> (#[trigger] ranges[j]).format != format) && (forall|j: int|
            0 <= j < ranges.len() ==> !covers(#[trigger] ranges[j], format, preferred))
            ==> negotiated(ranges, preferred) == Some(
            SupportedConfig {
                format,
                channels: ranges[k].channels,
                rate: ranges[k].max_rate,
                buffer: ranges[k].buffer,
            },
        ),
        (forall|j: int|
            0 <= j < ranges.len() ==> (#[trigger] ranges[j]).format != SampleFormat::F32
                && ranges[j].format != SampleFormat::I16 && ranges[j].format != SampleFormat::U16)
            ==> negotiated(ranges, preferred) is None,
{
    lemma_first_range(ranges, SampleFormat::F32, Some(preferred), 0, k);
    lemma_first_range(ranges, SampleFormat::F32, None, 0, k);
    lemma_first_range(ranges, SampleFormat::I16, Some(preferred), 0, k);
    lemma_first_range(ranges, SampleFormat::I16, None, 0, k);
    lemma_first_range(ranges, SampleFormat::U16, Some(preferred), 0, k);
    lemma_first_range(ranges, SampleFormat::U16, None, 0, k);
}

} // verus!
