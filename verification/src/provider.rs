use vstd::prelude::*;

verus! {

/// One candidate DNS resolver service under evaluation.
///
/// The identity fields (`name`, `organization`, `location`) are opaque to the
/// benchmark and never validated. `ipv4` must be a syntactically valid IPv4
/// literal for a probe to be attempted against the provider; `ipv6` is kept
/// for display only. `avg_response_time` holds the measured average lookup
/// latency in nanoseconds, and is absent until at least one probe against the
/// provider has succeeded.
pub struct DnsProvider {
    pub name: String,
    pub organization: String,
    pub location: String,
    pub ipv4: String,
    pub ipv6: Option<String>,
    pub avg_response_time: Option<u64>,
}

impl DnsProvider {
    /// A fresh record from the catalog: metadata as given, no measurement yet.
    pub fn new(
        name: String,
        organization: String,
        location: String,
        ipv4: String,
        ipv6: Option<String>,
    ) -> (p: DnsProvider)
        ensures
            p.name == name,
            p.organization == organization,
            p.location == location,
            p.ipv4 == ipv4,
            p.ipv6 == ipv6,
            p.avg_response_time is None,
    {
        DnsProvider { name, organization, location, ipv4, ipv6, avg_response_time: None }
    }

    /// Whether the provider carries a measurement, i.e. at least one of its
    /// probes succeeded during the benchmarking pass.
    pub open spec fn benchmarked(self) -> bool {
        self.avg_response_time is Some
    }

    /// The measured average latency in nanoseconds, for ranking.
    pub open spec fn latency(self) -> u64
        recommends
            self.benchmarked(),
    {
        self.avg_response_time.unwrap()
    }
}

} // verus!
