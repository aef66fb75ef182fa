//! Settings, and what is known of the relays of each region.
use crate::text::same_text;
use vstd::prelude::*;

verus! {

/// Settings of the service.
#[derive(Debug)]
pub struct ShredstreamConfig {
    /// Whether the service runs.
    pub enabled: bool,
    /// URL of the block engine.
    pub block_engine_url: Option<String>,
    /// Path of the key pair to authenticate with; the validator's identity where there is none.
    pub auth_keypair_path: Option<String>,
    /// Regions to receive shreds from.
    pub regions: Vec<String>,
    /// Public address to receive shreds at; found out where there is none.
    pub public_ip: Option<String>,
}

/// First port for supplementary heartbeats.
pub const MULTI_HEARTBEAT_PORT_START: u16 = 20100;

/// Number of supplementary ports, chosen to stay below the block engine's limit of 20 requests
/// per minute and identity.
pub const MULTI_HEARTBEAT_MAX_CONNECTIONS: u16 = 3;

/// Seconds between two heartbeats for one port, a third of the time for which the block engine
/// keeps a registration.
pub const MULTI_HEARTBEAT_PER_PORT_INTERVAL_SECS: u64 = 40;

/// Number of known relays of a region.
pub open spec fn relay_count(region: Seq<char>) -> nat {
    if region == "amsterdam"@ {
        11
    } else if region == "dublin"@ {
        3
    } else if region == "frankfurt"@ {
        10
    } else if region == "london"@ {
        6
    } else if region == "ny"@ || region == "new york"@ || region == "new_york"@ {
        8
    } else if region == "salt_lake_city"@ || region == "salt lake city"@ || region == "slc"@ {
        7
    } else if region == "singapore"@ {
        5
    } else if region == "tokyo"@ {
        6
    } else {
        0
    }
}

/// Number of known relays of several regions.
pub open spec fn relay_total(regions: Seq<String>) -> nat
    decreases regions.len(),
{
    if regions.len() == 0 {
        0
    } else {
        relay_total(regions.drop_last()) + relay_count(regions.last()@)
    }
}

/// Number of known relays of a region; 0 for an unknown one.
pub fn expected_relay_count(region: &str) -> (count: usize)
    ensures
        count == relay_count(region@),
        count <= 11,
{
    if same_text(region, "amsterdam") {
        11
    } else if same_text(region, "dublin") {
        3
    } else if same_text(region, "frankfurt") {
        10
    } else if same_text(region, "london") {
        6
    } else if same_text(region, "ny") || same_text(region, "new york") || same_text(
        region,
        "new_york",
    ) {
        8
    } else if same_text(region, "salt_lake_city") || same_text(region, "salt lake city")
        || same_text(region, "slc") {
        7
    } else if same_text(region, "singapore") {
        5
    } else if same_text(region, "tokyo") {
        6
    } else {
        0
    }
}

/// Number of known relays of several regions.
pub fn total_expected_relays(regions: &[String]) -> (total: usize)
    requires
        11 * regions@.len() <= usize::MAX,
    ensures
        total == relay_total(regions@),
{
    let mut total: usize = 0;
    let mut i: usize = 0;
    assert(regions@.subrange(0, 0) =~= seq![]);
    while i < regions.len()
        invariant
            i <= regions@.len(),
            11 * regions@.len() <= usize::MAX,
            total == relay_total(regions@.subrange(0, i as int)),
            total <= 11 * i,
        decreases regions@.len() - i,
    {
        assert(regions@.subrange(0, i + 1).drop_last() =~= regions@.subrange(0, i as int));
        total = total + expected_relay_count(regions[i].as_str());
        i += 1;
    }
    assert(regions@.subrange(0, i as int) =~= regions@);
    total
}

impl Default for ShredstreamConfig {
    /// Everything off or empty.
    fn default() -> (config: ShredstreamConfig)
        ensures
            !config.enabled,
            config.block_engine_url is None,
            config.auth_keypair_path is None,
            config.regions@ == Seq::<String>::empty(),
            config.public_ip is None,
    {
        ShredstreamConfig {
            enabled: false,
            block_engine_url: None,
            auth_keypair_path: None,
            regions: Vec::new(),
            public_ip: None,
        }
    }
}

impl ShredstreamConfig {
    /// Settings of a service that does not run.
    pub fn disabled() -> (config: ShredstreamConfig)
        ensures
            !config.enabled,
            config.block_engine_url is None,
            config.auth_keypair_path is None,
            config.regions@ == Seq::<String>::empty(),
            config.public_ip is None,
    {
        ShredstreamConfig::default()
    }

    /// Settings of a service that runs against the given block engine.
    pub fn new(block_engine_url: String, regions: Vec<String>) -> (config: ShredstreamConfig)
        ensures
            config.enabled,
            config.block_engine_url == Some(block_engine_url),
            config.auth_keypair_path is None,
            config.regions == regions,
            config.public_ip is None,
    {
        ShredstreamConfig {
            enabled: true,
            block_engine_url: Some(block_engine_url),
            auth_keypair_path: None,
            regions,
            public_ip: None,
        }
    }

    /// URL to authenticate at: that of the block engine.
    pub fn auth_url(&self) -> (url: Option<String>)
        ensures
            url is Some <==> self.block_engine_url is Some,
            url matches Some(u) ==> u@ == self.block_engine_url->Some_0@,
    {
        match &self.block_engine_url {
            Some(url) => Some(url.clone()),
            None => None,
        }
    }
}

/// The number of relays of joined lists is the sum of those of the lists, 0 for no region and that
/// of the region for a single one. So the order of the regions does not matter, and an unknown one
/// adds nothing.
pub proof fn law_relays_add_up(a: Seq<String>, b: Seq<String>, region: String)
    ensures
        relay_total(a + b) == relay_total(a) + relay_total(b),
        relay_total(Seq::<String>::empty()) == 0,
        relay_total(seq![region]) == relay_count(region@),
        relay_total(b + a) == relay_total(a + b),
        relay_count(region@) == 0 ==> relay_total(a.push(region)) == relay_total(a),
{
    lemma_relays_joined(a, b);
    lemma_relays_joined(b, a);
    assert(seq![region].drop_last() =~= Seq::<String>::empty());
    assert(a.push(region).drop_last() =~= a);
}

proof fn lemma_relays_joined(a: Seq<String>, b: Seq<String>)
    ensures
        relay_total(a + b) == relay_total(a) + relay_total(b),
    decreases b.len(),
{
    if b.len() == 0 {
        assert(a + b =~= a);
    } else {
        assert((a + b).drop_last() =~= a + b.drop_last());
        lemma_relays_joined(a, b.drop_last());
    }
}

} // verus!
