//! Inputs of the throttle: what a sampler reports, and where it reads it from.
use vstd::prelude::*;

use crate::paths::{path_parts, FsPath, PathStyle};
use crate::text::{begins_with, chars_of, same_text, string_of, text_starts_with, trim, trimmed};

verus! {

/// The host's thermal state.
#[derive(Clone, Copy, Debug, PartialEq, Eq, Structural)]
pub enum ThermalPressure {
    Nominal,
    Fair,
    Serious,
    Critical,
}

/// What the host reports.
#[derive(Clone, Copy, Debug, PartialEq, Eq, Structural)]
pub struct ThrottleInputs {
    pub on_battery: bool,
    pub low_power_mode: bool,
    pub user_active: bool,
    pub thermal_pressure: ThermalPressure,
    pub system_cpu_load_percent: u8,
}

impl Default for ThrottleInputs {
    fn default() -> (r: ThrottleInputs)
        ensures
            r == neutral_inputs(),
    {
        ThrottleInputs {
            on_battery: false,
            low_power_mode: false,
            user_active: false,
            thermal_pressure: ThermalPressure::Nominal,
            system_cpu_load_percent: 10,
        }
    }
}

pub open spec fn neutral_inputs() -> ThrottleInputs {
    ThrottleInputs {
        on_battery: false,
        low_power_mode: false,
        user_active: false,
        thermal_pressure: ThermalPressure::Nominal,
        system_cpu_load_percent: 10,
    }
}

/// Reports a scripted sequence; the last value over and over once it is used
/// up.
#[derive(Debug)]
pub struct ScriptedMetricsSampler {
    sequence: Vec<ThrottleInputs>,
    cursor: usize,
}

impl ScriptedMetricsSampler {
    pub closed spec fn script(&self) -> Seq<ThrottleInputs> {
        self.sequence@
    }

    /// Samples taken, at most up to the last value.
    pub closed spec fn taken(&self) -> int {
        self.cursor as int
    }

    pub open spec fn wf(&self) -> bool {
        0 <= self.taken() < self.script().len()
    }

    pub fn new(sequence: Vec<ThrottleInputs>) -> (r: ScriptedMetricsSampler)
        requires
            sequence@.len() > 0,
        ensures
            r.script() == sequence@,
            r.taken() == 0,
            r.wf(),
    {
        ScriptedMetricsSampler { sequence, cursor: 0 }
    }

    /// The next value of the script.
    pub fn sample(&mut self) -> (r: ThrottleInputs)
        requires
            old(self).wf(),
        ensures
            final(self).wf(),
            final(self).script() == old(self).script(),
            r == old(self).script()[old(self).taken()],
            final(self).taken() == if old(self).taken() < old(self).script().len() - 1 {
                old(self).taken() + 1
            } else {
                old(self).taken()
            },
    {
        let value = self.sequence[self.cursor];
        if self.cursor < self.sequence.len() - 1 {
            self.cursor = self.cursor + 1;
        }
        value
    }
}

/// A document with throttle inputs.
#[derive(Clone, Copy, Debug, PartialEq, Eq, Structural)]
pub struct ThrottleInputsFile {
    pub inputs: ThrottleInputs,
    /// Seconds the user has been idle.
    pub idle_seconds: u64,
}

impl Default for ThrottleInputsFile {
    fn default() -> (r: ThrottleInputsFile)
        ensures
            r.inputs == neutral_inputs(),
            r.idle_seconds == 0,
    {
        ThrottleInputsFile { inputs: ThrottleInputs::default(), idle_seconds: 0 }
    }
}

/// What a document samples as; one that is missing or malformed, as the
/// neutral inputs and no idle time.
pub fn sampled_document(document: Option<ThrottleInputsFile>) -> (r: ThrottleInputsFile)
    ensures
        r == match document {
            Some(document) => document,
            None => ThrottleInputsFile { inputs: neutral_inputs(), idle_seconds: 0 },
        },
{
    match document {
        Some(document) => document,
        None => ThrottleInputsFile::default(),
    }
}

/// Where throttle inputs come from.
#[derive(Debug, PartialEq, Eq)]
pub enum ThrottleInputsSource {
    Host,
    Static,
    File(FsPath),
}

pub const THROTTLE_INPUTS_STATIC: &'static str = "static";

pub const THROTTLE_INPUTS_FILE_PREFIX: &'static str = "file:";

/// A value that is none of the known sources is read as the host, so a typo
/// never switches sampling off.
pub open spec fn is_source(value: Option<&str>, source: ThrottleInputsSource) -> bool {
    match value {
        None => source == ThrottleInputsSource::Host,
        Some(text) => {
            let word = trimmed(text@);
            let prefix = THROTTLE_INPUTS_FILE_PREFIX@;
            if word == THROTTLE_INPUTS_STATIC@ {
                source == ThrottleInputsSource::Static
            } else if begins_with(word, prefix) && word.len() > prefix.len() {
                source matches ThrottleInputsSource::File(path) && path@ == path_parts(
                    PathStyle::Unix,
                    word.skip(prefix.len() as int),
                )
            } else {
                source == ThrottleInputsSource::Host
            }
        },
    }
}

/// Reads where throttle inputs come from.
pub fn throttle_inputs_source(value: Option<&str>) -> (r: ThrottleInputsSource)
    ensures
        is_source(value, r),
{
    let text = match value {
        Some(text) => text,
        None => {
            return ThrottleInputsSource::Host;
        },
    };
    let word = trim(text);
    if same_text(word.as_str(), THROTTLE_INPUTS_STATIC) {
        return ThrottleInputsSource::Static;
    }
    let prefix = chars_of(THROTTLE_INPUTS_FILE_PREFIX);
    let chars = chars_of(word.as_str());
    if text_starts_with(word.as_str(), THROTTLE_INPUTS_FILE_PREFIX) && chars.len() > prefix.len() {
        let path = string_of(&chars, prefix.len(), chars.len());
        assert(path@ =~= word@.skip(prefix@.len() as int));
        return ThrottleInputsSource::File(FsPath::new(path.as_str()));
    }
    ThrottleInputsSource::Host
}

/// Where the throttle inputs come from: the host unless something else is
/// named, and a file only where its name is given.
pub proof fn law_inputs_come_from_the_host_unless_named(
    value: &str,
    word: String,
    r: ThrottleInputsSource,
    unset: ThrottleInputsSource,
)
    requires
        call_ensures(throttle_inputs_source, (Some(value),), r),
        call_ensures(throttle_inputs_source, (None,), unset),
        call_ensures(trim, (value,), word),
    ensures
        unset is Host,
        r is Static <==> word@ == "static"@,
        r is File ==> word@.len() > 5 && word@.take(5) == "file:"@,
        r matches ThrottleInputsSource::File(path) ==> path@ == path_parts(
            PathStyle::Unix,
            word@.skip(5),
        ),
        word@.len() > 5 && word@.take(5) == "file:"@ && word@ != "static"@ ==> r is File,
{
    reveal_strlit("file:");
}

/// Samples come in the order of the script, and the last one over and over.
pub proof fn law_samples_follow_the_script(sampler: &mut ScriptedMetricsSampler, r: ThrottleInputs)
    requires
        call_ensures(ScriptedMetricsSampler::sample, (sampler,), r),
        old(sampler).wf(),
    ensures
        r == old(sampler).script()[old(sampler).taken()],
        final(sampler).script() == old(sampler).script(),
        old(sampler).taken() + 1 < old(sampler).script().len() ==> final(sampler).taken() == old(sampler).taken() + 1,
        old(sampler).taken() + 1 == old(sampler).script().len() ==> final(sampler).taken() == old(sampler).taken(),
{
}

/// A document that is missing stands for an idle machine on mains power.
pub proof fn law_a_missing_document_is_neutral(r: ThrottleInputsFile)
    requires
        call_ensures(sampled_document, (None,), r),
    ensures
        !r.inputs.on_battery,
        !r.inputs.low_power_mode,
        !r.inputs.user_active,
        r.inputs.thermal_pressure is Nominal,
        r.inputs.system_cpu_load_percent == 10,
        r.idle_seconds == 0,
{
}

} // verus!
