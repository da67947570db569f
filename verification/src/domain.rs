use vstd::prelude::*;

verus! {

/// Declares hickory_resolver::Name so that signatures of this crate can
/// carry parsed DNS names; the crate treats such a value as opaque.
#[verifier::external_type_specification]
#[verifier::external_body]
pub struct ExDnsName(hickory_resolver::Name);

/// Whether hickory's DNS name parser accepts the string.
pub uninterp spec fn domain_parse_ok(s: Seq<char>) -> bool;

/// Relies on hickory_resolver::Name::from_ascii: whether a string is accepted
/// as a DNS name depends on the string alone.
#[verifier::external_body]
fn parse_domain(s: &str) -> (r: Option<hickory_resolver::Name>)
    ensures
        r is Some <==> domain_parse_ok(s@),
{
    hickory_resolver::Name::from_ascii(s).ok()
}

/// The fixed probe set: well-known, presumed-always-resolvable domains run
/// by five different operators, so no single site's infrastructure biases
/// the measurement. Probed in this order for every provider.
pub open spec fn probe_domain_list() -> Seq<Seq<char>> {
    seq!["google.com"@, "cloudflare.com"@, "microsoft.com"@, "github.com"@, "netflix.com"@]
}

/// The domains a parse attempt keeps for the probe set.
pub open spec fn parseable_pred() -> spec_fn(Seq<char>) -> bool {
    |d: Seq<char>| domain_parse_ok(d)
}

/// The fixed probe set's domain names as strings, in probing order.
pub fn probe_domains() -> (r: Vec<String>)
    ensures
        r@.len() == probe_domain_list().len(),
        forall|i: int| 0 <= i < r@.len() ==> (#[trigger] r@[i])@ == probe_domain_list()[i],
{
    let mut v: Vec<String> = Vec::new();
    v.push("google.com".to_owned());
    v.push("cloudflare.com".to_owned());
    v.push("microsoft.com".to_owned());
    v.push("github.com".to_owned());
    v.push("netflix.com".to_owned());
    v
}

/// Builds the probe set itself: the fixed domains parsed into DNS names, in
/// order, silently skipping any domain the name parser rejects. A skipped
/// domain is never probed, so it does not count as attempted either.
pub fn build_probe_set() -> (r: Vec<hickory_resolver::Name>)
    ensures
        r@.len() == probe_domain_list().filter(parseable_pred()).len(),
{
    let ghost pred = parseable_pred();
    let domains = probe_domains();
    let mut out: Vec<hickory_resolver::Name> = Vec::new();
    let mut i: usize = 0;
    proof {
        reveal(Seq::filter);
        assert(probe_domain_list().take(0) =~= Seq::<Seq<char>>::empty());
    }
    while i < domains.len()
        invariant
            domains@.len() == probe_domain_list().len(),
            forall|t: int|
                0 <= t < domains@.len() ==> (#[trigger] domains@[t])@ == probe_domain_list()[t],
            0 <= i <= domains@.len(),
            out@.len() == probe_domain_list().take(i as int).filter(parseable_pred()).len(),
        decreases domains@.len() - i,
    {
        let parsed = parse_domain(domains[i].as_str());
        proof {
            reveal(Seq::filter);
            let shorter = probe_domain_list().take(i as int);
            let longer = probe_domain_list().take(i + 1);
            assert(longer.drop_last() =~= shorter);
            assert(longer.last() == probe_domain_list()[i as int]);
            if parseable_pred()(probe_domain_list()[i as int]) {
                assert(longer.filter(parseable_pred()) =~= shorter.filter(
                    parseable_pred(),
                ).push(longer.last()));
            } else {
                assert(longer.filter(parseable_pred()) =~= shorter.filter(parseable_pred()));
            }
        }
        match parsed {
            Some(name) => out.push(name),
            None => {},
        }
        i = i + 1;
    }
    proof {
        assert(probe_domain_list().take(i as int) =~= probe_domain_list());
    }
    out
}

} // verus!
