//! Dashboard backend for a Shelly Plug S: run options, the energy archive and
//! its aggregation, and the pieces of the Shelly HTTP API that compute.

use vstd::prelude::*;

pub mod aggreated_archive_data;
pub mod archive;
pub mod archive_service;
pub mod cancellation_token;
pub mod options;
pub mod routes;
pub mod shelly_api;
pub mod text;

use crate::shelly_api::{authorization_for, authorization_header, ShellyRequest};
use crate::text::{clone_text, parse_u16, parse_unsigned, parse_usize};

verus! {

/// Port that the web server listens on when none (or no valid one) is given.
pub const DEFAULT_PORT: u16 = 8080;

/// The port chosen from an optional command-line value: the value when it
/// parses as a `u16`, otherwise the default port.
pub open spec fn port_from_text(port: Option<String>) -> u16 {
    match port {
        Some(p) => match parse_unsigned(p@, u16::MAX as nat) {
            Some(n) => n as u16,
            None => DEFAULT_PORT,
        },
        None => DEFAULT_PORT,
    }
}

/// The archive size chosen from an optional command-line value: the value
/// when it parses as a `usize`, otherwise no archive.
pub open spec fn archive_from_text(archive: Option<String>) -> Option<usize> {
    match archive {
        Some(a) => match parse_unsigned(a@, usize::MAX as nat) {
            Some(n) => Some(n as usize),
            None => None,
        },
        None => None,
    }
}

/// Options of the plain command-line front end.
pub struct RunOptions {
    pub port: u16,
    pub archive: Option<usize>,
    pub authorization: Option<String>,
}

impl RunOptions {
    /// Builds the options from raw command-line values; a port that does not
    /// parse falls back to 8080, an archive size that does not parse is
    /// dropped.
    pub fn new(port: Option<String>, archive: Option<String>, authorization: Option<String>) -> (r:
        Self)
        ensures
            r.port == port_from_text(port),
            r.archive == archive_from_text(archive),
            r.authorization == authorization,
    {
        let mut archive_parse_result: Option<usize> = None;
        if let Some(a) = archive {
            if let Some(value) = parse_usize(a.as_str()) {
                archive_parse_result = Some(value);
            }
        }
        let chosen_port: u16 = match port {
            Some(p) => match parse_u16(p.as_str()) {
                Some(value) => value,
                None => DEFAULT_PORT,
            },
            None => DEFAULT_PORT,
        };
        RunOptions { port: chosen_port, archive: archive_parse_result, authorization }
    }
}

impl Clone for RunOptions {
    fn clone(&self) -> (r: Self)
        ensures
            r == *self,
    {
        RunOptions {
            port: self.port,
            archive: self.archive,
            authorization: clone_text(&self.authorization),
        }
    }
}

/// The request for the current reading of the plug at its fixed address,
/// with basic authentication when `options` carry credentials.
pub fn plug_meter_request(options: &RunOptions) -> (r: ShellyRequest)
    ensures
        r.url@ == "http://192.168.178.55/meter/0"@,
        authorization_for(options.authorization, r.authorization),
{
    ShellyRequest {
        url: String::from_str("http://192.168.178.55/meter/0"),
        authorization: authorization_header(&options.authorization),
    }
}

} // verus!
