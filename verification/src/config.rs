use vstd::prelude::*;

use crate::header::Header;
use crate::text::str_eq;

verus! {

/// What the configuration holds for one registry alias: the index URL,
/// if one is configured, and the authentication headers to send with
/// every download request against that registry.
pub struct RegistryConfig {
    pub index: Option<String>,
    pub headers: Vec<Header>,
}

/// One registry alias with its configuration.
pub struct NamedRegistry {
    pub alias: String,
    pub config: RegistryConfig,
}

/// The user configuration: an optional default registry alias, and the
/// configured registries in configuration order.
pub struct Config {
    pub default_registry: Option<String>,
    pub registries: Vec<NamedRegistry>,
}

/// The name and value each header holds.
pub open spec fn header_views(s: Seq<Header>) -> Seq<(Seq<char>, Seq<char>)> {
    s.map_values(|h: Header| (h.name@, h.value@))
}

/// `i` is where the first registry with alias `a` stands.
pub open spec fn found_at(regs: Seq<NamedRegistry>, a: Seq<char>, i: int) -> bool {
    &&& 0 <= i < regs.len()
    &&& regs[i].alias@ == a
    &&& forall|j: int| 0 <= j < i ==> regs[j].alias@ != a
}

impl Config {
    /// An empty configuration: no default registry, no registries.
    pub fn new() -> (r: Config)
        ensures
            r.default_registry is None,
            r.registries@.len() == 0,
    {
        Config { default_registry: None, registries: Vec::new() }
    }

    /// The configuration of the given alias, if the alias is configured;
    /// the first match wins.
    pub fn registry(&self, alias: &str) -> (r: Option<&RegistryConfig>)
        ensures
            (r is Some) <==> exists|i: int| found_at(self.registries@, alias@, i),
            forall|i: int|
                found_at(self.registries@, alias@, i) ==> (r matches Some(c) && *c
                    == self.registries@[i].config),
    {
        let mut i: usize = 0;
        while i < self.registries.len()
            invariant
                0 <= i <= self.registries@.len(),
                forall|j: int| 0 <= j < i ==> self.registries@[j].alias@ != alias@,
            decreases self.registries@.len() - i,
        {
            if str_eq(self.registries[i].alias.as_str(), alias) {
                assert(found_at(self.registries@, alias@, i as int));
                return Some(&self.registries[i].config);
            }
            i = i + 1;
        }
        None
    }
}

/// The headers a request carries: the configuration's headers first, then
/// the extra (command-line) headers, in order. Duplicates are kept; which
/// of two same-named headers wins is the transport's affair.
pub fn combined_headers(config_headers: &Vec<Header>, extra: &Vec<Header>) -> (r: Vec<Header>)
    ensures
        header_views(r@) == header_views(config_headers@) + header_views(extra@),
{
    let mut r: Vec<Header> = Vec::new();
    let mut i: usize = 0;
    proof {
        assert(header_views(r@) =~= header_views(config_headers@).take(0));
    }
    while i < config_headers.len()
        invariant
            0 <= i <= config_headers@.len(),
            header_views(r@) == header_views(config_headers@).take(i as int),
        decreases config_headers@.len() - i,
    {
        let ghost prev = r@;
        r.push(config_headers[i].duplicate());
        proof {
            assert(r@.drop_last() =~= prev);
            assert(header_views(r@) =~= header_views(prev).push(
                (config_headers@[i as int].name@, config_headers@[i as int].value@),
            ));
            assert(header_views(config_headers@).take(i + 1) =~= header_views(
                config_headers@,
            ).take(i as int).push((config_headers@[i as int].name@, config_headers@[i as int].value@)));
        }
        i = i + 1;
    }
    proof {
        assert(header_views(config_headers@).take(config_headers@.len() as int) =~= header_views(
            config_headers@,
        ));
    }
    let mut j: usize = 0;
    proof {
        assert(header_views(extra@).take(0) =~= Seq::<(Seq<char>, Seq<char>)>::empty());
        assert(header_views(r@) =~= header_views(config_headers@) + header_views(extra@).take(0));
    }
    while j < extra.len()
        invariant
            0 <= j <= extra@.len(),
            header_views(r@) == header_views(config_headers@) + header_views(extra@).take(
                j as int,
            ),
        decreases extra@.len() - j,
    {
        let ghost prev = r@;
        r.push(extra[j].duplicate());
        proof {
            assert(r@.drop_last() =~= prev);
            assert(header_views(r@) =~= header_views(prev).push(
                (extra@[j as int].name@, extra@[j as int].value@),
            ));
            assert(header_views(extra@).take(j + 1) =~= header_views(extra@).take(j as int).push(
                (extra@[j as int].name@, extra@[j as int].value@),
            ));
        }
        j = j + 1;
    }
    proof {
        assert(header_views(extra@).take(extra@.len() as int) =~= header_views(extra@));
    }
    r
}

} // verus!
