//! Process-wide client configuration, read-only to the core.

use crate::apm_config::{ApmConfig, ApmModel};
use crate::logging_config::{LoggingConfig, LoggingModel};
use vstd::prelude::*;

verus! {

/// The mathematical content of a `Config`.
pub ghost struct ConfigModel {
    pub service: Seq<char>,
    pub environment: Option<Seq<char>>,
    pub endpoint: Seq<char>,
    pub logging: LoggingModel,
    pub apm: ApmModel,
    pub enabled: bool,
}

/// Configuration settings for the client.
pub struct Config {
    /// Service name stamped on every output record.
    pub service: String,
    /// Optional environment tag for output records.
    pub environment: Option<String>,
    /// Collector host/port.
    pub endpoint: String,
    /// Console-logging settings.
    pub logging_config: LoggingConfig,
    /// APM analytics settings.
    pub apm_config: ApmConfig,
    /// Master switch for tracing.
    pub enabled: bool,
}

impl View for Config {
    type V = ConfigModel;

    open spec fn view(&self) -> ConfigModel {
        ConfigModel {
            service: self.service@,
            environment: match self.environment {
                Some(ref e) => Some(e@),
                None => None,
            },
            endpoint: self.endpoint@,
            logging: self.logging_config@,
            apm: self.apm_config@,
            enabled: self.enabled,
        }
    }
}

impl Config {
    pub fn new(
        service: String,
        environment: Option<String>,
        endpoint: String,
        logging_config: LoggingConfig,
        apm_config: ApmConfig,
        enabled: bool,
    ) -> (r: Config)
        ensures
            r@ == (ConfigModel {
                service: service@,
                environment: match environment {
                    Some(e) => Some(e@),
                    None => None::<Seq<char>>,
                },
                endpoint: endpoint@,
                logging: logging_config@,
                apm: apm_config@,
                enabled,
            }),
    {
        Config { service, environment, endpoint, logging_config, apm_config, enabled }
    }

    pub fn service(&self) -> (r: &str)
        ensures
            r@ == self@.service,
    {
        self.service.as_str()
    }

    pub fn environment(&self) -> (r: Option<&str>)
        ensures
            match r {
                Some(e) => self@.environment == Some(e@),
                None => self@.environment is None,
            },
    {
        match &self.environment {
            Some(e) => Some(e.as_str()),
            None => None,
        }
    }

    pub fn endpoint(&self) -> (r: &str)
        ensures
            r@ == self@.endpoint,
    {
        self.endpoint.as_str()
    }

    pub fn logging_config(&self) -> (r: &LoggingConfig)
        ensures
            r@ == self@.logging,
    {
        &self.logging_config
    }

    pub fn apm_config(&self) -> (r: &ApmConfig)
        ensures
            r@ == self@.apm,
    {
        &self.apm_config
    }

    pub fn enabled(&self) -> (r: bool)
        ensures
            r == self@.enabled,
    {
        self.enabled
    }
}

impl Default for Config {
    /// Tracing on, no environment, a local collector, and default logging
    /// and analytics settings.
    fn default() -> (r: Config)
        ensures
            r@.service == "default"@,
            r@.environment is None,
            r@.endpoint == "http://localhost:8123/v0.3/traces"@,
            r@.enabled == true,
            r@.apm.apm_enabled == false,
    {
        Config {
            environment: None,
            endpoint: "http://localhost:8123/v0.3/traces".to_owned(),
            service: "default".to_owned(),
            logging_config: LoggingConfig::default(),
            apm_config: ApmConfig::default(),
            enabled: true,
        }
    }
}

} // verus!
