//! APM analytics configuration. The sampling numbers travel as their wire
//! text (a JSON number); the library checks the text's shape when it encodes
//! a batch.

use vstd::prelude::*;

verus! {

/// The mathematical content of an `ApmConfig`.
pub ghost struct ApmModel {
    pub apm_enabled: bool,
    pub sample_priority: Seq<char>,
    pub sample_rate: Seq<char>,
}

/// APM analytics settings: whether the metrics block is emitted, and the two
/// sampling numbers as wire text.
pub struct ApmConfig {
    pub apm_enabled: bool,
    pub sample_priority: String,
    pub sample_rate: String,
}

impl View for ApmConfig {
    type V = ApmModel;

    open spec fn view(&self) -> ApmModel {
        ApmModel {
            apm_enabled: self.apm_enabled,
            sample_priority: self.sample_priority@,
            sample_rate: self.sample_rate@,
        }
    }
}

impl ApmConfig {
    pub fn new(apm_enabled: bool, sample_priority: String, sample_rate: String) -> (r: ApmConfig)
        ensures
            r@ == (ApmModel {
                apm_enabled,
                sample_priority: sample_priority@,
                sample_rate: sample_rate@,
            }),
    {
        ApmConfig { apm_enabled, sample_priority, sample_rate }
    }

    pub fn apm_enabled(&self) -> (r: bool)
        ensures
            r == self@.apm_enabled,
    {
        self.apm_enabled
    }

    pub fn sample_rate(&self) -> (r: &str)
        ensures
            r@ == self@.sample_rate,
    {
        self.sample_rate.as_str()
    }

    pub fn sample_priority(&self) -> (r: &str)
        ensures
            r@ == self@.sample_priority,
    {
        self.sample_priority.as_str()
    }

    /// A value-equal copy.
    pub fn duplicate(&self) -> (r: ApmConfig)
        ensures
            r@ == self@,
    {
        ApmConfig {
            apm_enabled: self.apm_enabled,
            sample_priority: self.sample_priority.clone(),
            sample_rate: self.sample_rate.clone(),
        }
    }
}

impl Default for ApmConfig {
    /// Analytics off; both sampling numbers zero.
    fn default() -> (r: ApmConfig)
        ensures
            r@.apm_enabled == false,
            r@.sample_priority == "0"@,
            r@.sample_rate == "0"@,
    {
        ApmConfig {
            apm_enabled: false,
            sample_priority: "0".to_owned(),
            sample_rate: "0".to_owned(),
        }
    }
}

} // verus!
