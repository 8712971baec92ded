//! Configuration records for the excluded collaborators.

use vstd::prelude::*;

verus! {

/// Where the retrieval collaborator's search index lives.
#[derive(Clone, Debug)]
pub struct ElasticsearchConfig {
    pub url: String,
    pub index: String,
}

/// Where the metrics endpoint listens.
#[derive(Clone, Debug)]
pub struct PrometheusConfig {
    pub port: u16,
}

} // verus!
