//! The whole configuration of a deployment, as parsed, and its enriched
//! form: lookups validated and derived values filled in.

use vstd::prelude::*;

use crate::destination::ConfigDestination;
use crate::error::WuffError;
use crate::gate::ConfigGate;
use crate::listener::{ConfigListener, ConfigListenerEnriched};
use crate::mime_types::{ConfigMimeType, ConfigMimeTypesEnriched};

verus! {

/// The configuration file's top level.
#[derive(Debug)]
pub struct Config {
    pub listeners: Vec<ConfigListener>,
    pub gates: Vec<(String, ConfigGate)>,
    pub destinations: Vec<(String, ConfigDestination)>,
    pub mime_types: Vec<(String, ConfigMimeType)>,
}

/// The configuration after enrichment: listeners with their key material
/// resolved, and the MIME table lowercased and checked for duplicates.
pub struct ConfigEnriched {
    pub listeners: Vec<ConfigListenerEnriched>,
    pub gates: Vec<(String, ConfigGate)>,
    pub destinations: Vec<(String, ConfigDestination)>,
    pub mime_types: ConfigMimeTypesEnriched,
}

impl ConfigEnriched {
    /// Assembles the enriched configuration.  The caller has already
    /// resolved each listener's key material; the MIME table is enriched
    /// here and rejected exactly when two extensions collide after
    /// lowercasing.
    pub fn new(
        listeners: Vec<ConfigListenerEnriched>,
        gates: Vec<(String, ConfigGate)>,
        destinations: Vec<(String, ConfigDestination)>,
        mime_types: &Vec<(String, ConfigMimeType)>,
    ) -> (r: Result<ConfigEnriched, WuffError>)
        ensures
            match r {
                Ok(c) => {
                    &&& c.listeners == listeners
                    &&& c.gates == gates
                    &&& c.destinations == destinations
                    &&& c.mime_types.inv()
                    &&& c.mime_types.entries@.len() == mime_types@.len()
                },
                Err(_) => exists|i: int, j: int|
                    0 <= i < j < mime_types@.len() && crate::mime_types::lower_of(
                        (#[trigger] mime_types@[i].0)@,
                    ) == crate::mime_types::lower_of((#[trigger] mime_types@[j].0)@),
            },
    {
        let enriched_mime = match ConfigMimeTypesEnriched::try_from_config(mime_types) {
            Ok(m) => m,
            Err(e) => {
                return Err(e);
            },
        };
        Ok(ConfigEnriched { listeners, gates, destinations, mime_types: enriched_mime })
    }
}

} // verus!
