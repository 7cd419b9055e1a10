//! Resolver settings: the catalogue of encrypted DNS providers, the plain
//! servers of each option, and the configuration profile installed for one.
use vstd::prelude::*;
use std::collections::hash_map::DefaultHasher;
use std::hash::Hasher;
use vstd::std_specs::hash::DefaultHasherAdditionalSpecFns;
use vstd::utf8::encode_utf8;
use crate::text::{chars_of, push_char, push_str, str_eq};

verus! {

/// An entry of the encrypted DNS catalogue.
pub struct DohEntry {
    pub display_name: &'static str,
    pub doh_url: &'static str,
    pub servers: Vec<&'static str>,
}

/// The abstract value of a catalogue entry under its key.
pub open spec fn doh_entry_view(e: ((&'static str, &'static str), DohEntry)) -> (
    Seq<char>,
    Seq<char>,
    Seq<char>,
    Seq<char>,
    Seq<Seq<char>>,
) {
    (e.0.0@, e.0.1@, e.1.display_name@, e.1.doh_url@, e.1.servers@.map_values(|s: &str| s@))
}

/// The catalogue, keyed by `(provider, option)`.
pub struct DohCatalog {
    entries: Vec<((&'static str, &'static str), DohEntry)>,
}

/// Entry `i` of `t` is the first with key `(p, o)`.
pub open spec fn first_key_at(
    t: Seq<(Seq<char>, Seq<char>, Seq<char>, Seq<char>, Seq<Seq<char>>)>,
    p: Seq<char>,
    o: Seq<char>,
    i: int,
) -> bool {
    &&& 0 <= i < t.len()
    &&& t[i].0 == p && t[i].1 == o
    &&& forall|j: int| 0 <= j < i ==> !(#[trigger] t[j].0 == p && t[j].1 == o)
}

/// `t` has an entry with key `(p, o)`.
pub open spec fn has_key(
    t: Seq<(Seq<char>, Seq<char>, Seq<char>, Seq<char>, Seq<Seq<char>>)>,
    p: Seq<char>,
    o: Seq<char>,
) -> bool {
    exists|i: int| 0 <= i < t.len() && #[trigger] t[i].0 == p && t[i].1 == o
}

impl DohCatalog {
    /// The entries, in order.
    pub closed spec fn view(&self) -> Seq<(Seq<char>, Seq<char>, Seq<char>, Seq<char>, Seq<Seq<char>>)> {
        self.entries@.map_values(|e: ((&'static str, &'static str), DohEntry)| doh_entry_view(e))
    }

    /// The number of entries.
    pub fn len(&self) -> (n: usize)
        ensures
            n == self.view().len(),
    {
        self.entries.len()
    }

    fn find(&self, key: &(&str, &str)) -> (r: Option<usize>)
        ensures
            match r {
                Some(i) => first_key_at(self.view(), key.0@, key.1@, i as int),
                None => !has_key(self.view(), key.0@, key.1@),
            },
    {
        let mut i: usize = 0;
        while i < self.entries.len()
            invariant
                i <= self.entries@.len(),
                forall|j: int| 0 <= j < i ==> !(#[trigger] self.view()[j].0 == key.0@ && self.view()[j].1 == key.1@),
            decreases self.entries@.len() - i,
        {
            let k = &self.entries[i].0;
            if str_eq(k.0, key.0) && str_eq(k.1, key.1) {
                return Some(i);
            }
            i += 1;
        }
        None
    }

    /// Whether the catalogue has an entry for `key`.
    pub fn contains_key(&self, key: &(&str, &str)) -> (r: bool)
        ensures
            r == has_key(self.view(), key.0@, key.1@),
    {
        self.find(key).is_some()
    }

    /// The entry for `key`.
    pub fn get(&self, key: &(&str, &str)) -> (r: Option<&DohEntry>)
        ensures
            match r {
                Some(e) => exists|i: int| #[trigger] first_key_at(self.view(), key.0@, key.1@, i)
                    && self.view()[i] == (key.0@, key.1@, e.display_name@, e.doh_url@, e.servers@.map_values(
                    |s: &str| s@,
                )),
                None => !has_key(self.view(), key.0@, key.1@),
            },
    {
        match self.find(key) {
            Some(i) => {
                let e = &self.entries[i].1;
                assert(first_key_at(self.view(), key.0@, key.1@, i as int));
                Some(e)
            },
            None => None,
        }
    }
}

/// The DNS-over-HTTPS catalogue: `(provider, option, display name, URL,
/// server addresses)`.
pub open spec fn doh_table() -> Seq<(Seq<char>, Seq<char>, Seq<char>, Seq<char>, Seq<Seq<char>>)> {
    seq![
        ("mullvad"@, "std"@, "Mullvad — Standard"@, "https://dns.mullvad.net/dns-query"@, seq!["194.242.2.2"@, "2a07:e340::2"@]),
        ("mullvad"@, "adblock"@, "Mullvad — Adblock"@, "https://adblock.dns.mullvad.net/dns-query"@, seq!["194.242.2.3"@, "2a07:e340::3"@]),
        ("mullvad"@, "base"@, "Mullvad — Base"@, "https://base.dns.mullvad.net/dns-query"@, seq!["194.242.2.4"@, "2a07:e340::4"@]),
        ("mullvad"@, "extended"@, "Mullvad — Extended"@, "https://extended.dns.mullvad.net/dns-query"@, seq!["194.242.2.5"@, "2a07:e340::5"@]),
        ("mullvad"@, "family"@, "Mullvad — Family"@, "https://family.dns.mullvad.net/dns-query"@, seq!["194.242.2.6"@, "2a07:e340::6"@]),
        ("mullvad"@, "all"@, "Mullvad — All"@, "https://all.dns.mullvad.net/dns-query"@, seq!["194.242.2.9"@, "2a07:e340::9"@]),
        ("quad9"@, "sec"@, "Quad9 — Secure"@, "https://dns.quad9.net/dns-query"@, seq!["9.9.9.9"@, "149.112.112.112"@, "2620:fe::fe"@, "2620:fe::9"@]),
        ("quad9"@, "unf"@, "Quad9 — Unsecure"@, "https://dns10.quad9.net/dns-query"@, seq!["9.9.9.10"@, "149.112.112.10"@]),
        ("quad9"@, "edns"@, "Quad9 — EDNS"@, "https://dns11.quad9.net/dns-query"@, seq!["9.9.9.11"@, "149.112.112.11"@]),
        ("libredns"@, "std"@, "LibreDNS — Standard"@, "https://doh.libredns.gr/dns-query"@, seq!["116.202.176.26"@]),
        ("fdn"@, "std"@, "FDN — Standard"@, "https://ns0.fdn.fr/dns-query"@, seq!["80.67.169.12"@, "80.67.169.40"@, "2001:910:800::12"@, "2001:910:800::40"@]),
        ("dns4eu"@, "protective"@, "DNS4EU — Protective"@, "https://protective.joindns4.eu/dns-query"@, seq!["86.54.11.1"@, "86.54.11.201"@, "2a13:1001::86:54:11:1"@, "2a13:1001::86:54:11:201"@]),
        ("dns4eu"@, "child"@, "DNS4EU — Child Protection"@, "https://child.joindns4.eu/dns-query"@, seq!["86.54.11.12"@, "86.54.11.212"@, "2a13:1001::86:54:11:12"@, "2a13:1001::86:54:11:212"@]),
        ("dns4eu"@, "noads"@, "DNS4EU — Protective + Ad Blocking"@, "https://noads.joindns4.eu/dns-query"@, seq!["86.54.11.13"@, "86.54.11.213"@, "2a13:1001::86:54:11:13"@, "2a13:1001::86:54:11:213"@]),
        ("dns4eu"@, "child-noads"@, "DNS4EU — Child Protection + Ad Blocking"@, "https://child-noads.joindns4.eu/dns-query"@, seq!["86.54.11.11"@, "86.54.11.211"@, "2a13:1001::86:54:11:11"@, "2a13:1001::86:54:11:211"@]),
        ("dns4eu"@, "unfiltered"@, "DNS4EU — Unfiltered"@, "https://unfiltered.joindns4.eu/dns-query"@, seq!["86.54.11.100"@, "86.54.11.200"@, "2a13:1001::86:54:11:100"@, "2a13:1001::86:54:11:200"@]),
        ("dnssb"@, "std"@, "DNS.SB — Standard"@, "https://doh.dns.sb/dns-query"@, seq!["185.222.222.222"@, "45.11.45.11"@, "2a09::"@, "2a11::"@]),
        ("adguard"@, "std"@, "AdGuard — Standard"@, "https://dns.adguard-dns.com/dns-query"@, seq!["94.140.14.14"@, "94.140.15.15"@, "2a10:50c0::1:ff"@, "2a10:50c0::2:ff"@]),
        ("adguard"@, "family"@, "AdGuard — Family"@, "https://family.adguard-dns.com/dns-query"@, seq!["94.140.14.15"@, "94.140.15.16"@, "2a10:50c0::bad1:ff"@, "2a10:50c0::bad2:ff"@]),
        ("adguard"@, "unf"@, "AdGuard — Unfiltered"@, "https://unfiltered.adguard-dns.com/dns-query"@, seq!["94.140.14.140"@, "94.140.14.141"@, "2a10:50c0::1:ff"@, "2a10:50c0::2:ff"@]),
        ("cloudflare"@, "std"@, "Cloudflare — Standard"@, "https://cloudflare-dns.com/dns-query"@, seq!["1.1.1.1"@, "1.0.0.1"@, "2606:4700:4700::1111"@, "2606:4700:4700::1001"@]),
        ("cloudflare"@, "mal"@, "Cloudflare — Security"@, "https://security.cloudflare-dns.com/dns-query"@, seq!["1.1.1.2"@, "1.0.0.2"@, "2606:4700:4700::1112"@, "2606:4700:4700::1002"@]),
        ("cloudflare"@, "family"@, "Cloudflare — Family"@, "https://family.cloudflare-dns.com/dns-query"@, seq!["1.1.1.3"@, "1.0.0.3"@, "2606:4700:4700::1113"@, "2606:4700:4700::1003"@]),
    ]
}

/// The catalogue of encrypted resolvers; every value is fixed here, none
/// comes from the user interface.
pub fn doh_catalog() -> (c: DohCatalog)
    ensures
        c.view() == doh_table(),
{
    let mut entries: Vec<((&'static str, &'static str), DohEntry)> = Vec::new();
    let servers = vec!["194.242.2.2", "2a07:e340::2"];
    assert(servers@.map_values(|s: &str| s@) =~= seq!["194.242.2.2"@, "2a07:e340::2"@]);
    entries.push((("mullvad", "std"), DohEntry { display_name: "Mullvad — Standard", doh_url: "https://dns.mullvad.net/dns-query", servers }));
    let servers = vec!["194.242.2.3", "2a07:e340::3"];
    assert(servers@.map_values(|s: &str| s@) =~= seq!["194.242.2.3"@, "2a07:e340::3"@]);
    entries.push((("mullvad", "adblock"), DohEntry { display_name: "Mullvad — Adblock", doh_url: "https://adblock.dns.mullvad.net/dns-query", servers }));
    let servers = vec!["194.242.2.4", "2a07:e340::4"];
    assert(servers@.map_values(|s: &str| s@) =~= seq!["194.242.2.4"@, "2a07:e340::4"@]);
    entries.push((("mullvad", "base"), DohEntry { display_name: "Mullvad — Base", doh_url: "https://base.dns.mullvad.net/dns-query", servers }));
    let servers = vec!["194.242.2.5", "2a07:e340::5"];
    assert(servers@.map_values(|s: &str| s@) =~= seq!["194.242.2.5"@, "2a07:e340::5"@]);
    entries.push((("mullvad", "extended"), DohEntry { display_name: "Mullvad — Extended", doh_url: "https://extended.dns.mullvad.net/dns-query", servers }));
    let servers = vec!["194.242.2.6", "2a07:e340::6"];
    assert(servers@.map_values(|s: &str| s@) =~= seq!["194.242.2.6"@, "2a07:e340::6"@]);
    entries.push((("mullvad", "family"), DohEntry { display_name: "Mullvad — Family", doh_url: "https://family.dns.mullvad.net/dns-query", servers }));
    let servers = vec!["194.242.2.9", "2a07:e340::9"];
    assert(servers@.map_values(|s: &str| s@) =~= seq!["194.242.2.9"@, "2a07:e340::9"@]);
    entries.push((("mullvad", "all"), DohEntry { display_name: "Mullvad — All", doh_url: "https://all.dns.mullvad.net/dns-query", servers }));
    let servers = vec!["9.9.9.9", "149.112.112.112", "2620:fe::fe", "2620:fe::9"];
    assert(servers@.map_values(|s: &str| s@) =~= seq!["9.9.9.9"@, "149.112.112.112"@, "2620:fe::fe"@, "2620:fe::9"@]);
    entries.push((("quad9", "sec"), DohEntry { display_name: "Quad9 — Secure", doh_url: "https://dns.quad9.net/dns-query", servers }));
    let servers = vec!["9.9.9.10", "149.112.112.10"];
    assert(servers@.map_values(|s: &str| s@) =~= seq!["9.9.9.10"@, "149.112.112.10"@]);
    entries.push((("quad9", "unf"), DohEntry { display_name: "Quad9 — Unsecure", doh_url: "https://dns10.quad9.net/dns-query", servers }));
    let servers = vec!["9.9.9.11", "149.112.112.11"];
    assert(servers@.map_values(|s: &str| s@) =~= seq!["9.9.9.11"@, "149.112.112.11"@]);
    entries.push((("quad9", "edns"), DohEntry { display_name: "Quad9 — EDNS", doh_url: "https://dns11.quad9.net/dns-query", servers }));
    let servers = vec!["116.202.176.26"];
    assert(servers@.map_values(|s: &str| s@) =~= seq!["116.202.176.26"@]);
    entries.push((("libredns", "std"), DohEntry { display_name: "LibreDNS — Standard", doh_url: "https://doh.libredns.gr/dns-query", servers }));
    let servers = vec!["80.67.169.12", "80.67.169.40", "2001:910:800::12", "2001:910:800::40"];
    assert(servers@.map_values(|s: &str| s@) =~= seq!["80.67.169.12"@, "80.67.169.40"@, "2001:910:800::12"@, "2001:910:800::40"@]);
    entries.push((("fdn", "std"), DohEntry { display_name: "FDN — Standard", doh_url: "https://ns0.fdn.fr/dns-query", servers }));
    let servers = vec!["86.54.11.1", "86.54.11.201", "2a13:1001::86:54:11:1", "2a13:1001::86:54:11:201"];
    assert(servers@.map_values(|s: &str| s@) =~= seq!["86.54.11.1"@, "86.54.11.201"@, "2a13:1001::86:54:11:1"@, "2a13:1001::86:54:11:201"@]);
    entries.push((("dns4eu", "protective"), DohEntry { display_name: "DNS4EU — Protective", doh_url: "https://protective.joindns4.eu/dns-query", servers }));
    let servers = vec!["86.54.11.12", "86.54.11.212", "2a13:1001::86:54:11:12", "2a13:1001::86:54:11:212"];
    assert(servers@.map_values(|s: &str| s@) =~= seq!["86.54.11.12"@, "86.54.11.212"@, "2a13:1001::86:54:11:12"@, "2a13:1001::86:54:11:212"@]);
    entries.push((("dns4eu", "child"), DohEntry { display_name: "DNS4EU — Child Protection", doh_url: "https://child.joindns4.eu/dns-query", servers }));
    let servers = vec!["86.54.11.13", "86.54.11.213", "2a13:1001::86:54:11:13", "2a13:1001::86:54:11:213"];
    assert(servers@.map_values(|s: &str| s@) =~= seq!["86.54.11.13"@, "86.54.11.213"@, "2a13:1001::86:54:11:13"@, "2a13:1001::86:54:11:213"@]);
    entries.push((("dns4eu", "noads"), DohEntry { display_name: "DNS4EU — Protective + Ad Blocking", doh_url: "https://noads.joindns4.eu/dns-query", servers }));
    let servers = vec!["86.54.11.11", "86.54.11.211", "2a13:1001::86:54:11:11", "2a13:1001::86:54:11:211"];
    assert(servers@.map_values(|s: &str| s@) =~= seq!["86.54.11.11"@, "86.54.11.211"@, "2a13:1001::86:54:11:11"@, "2a13:1001::86:54:11:211"@]);
    entries.push((("dns4eu", "child-noads"), DohEntry { display_name: "DNS4EU — Child Protection + Ad Blocking", doh_url: "https://child-noads.joindns4.eu/dns-query", servers }));
    let servers = vec!["86.54.11.100", "86.54.11.200", "2a13:1001::86:54:11:100", "2a13:1001::86:54:11:200"];
    assert(servers@.map_values(|s: &str| s@) =~= seq!["86.54.11.100"@, "86.54.11.200"@, "2a13:1001::86:54:11:100"@, "2a13:1001::86:54:11:200"@]);
    entries.push((("dns4eu", "unfiltered"), DohEntry { display_name: "DNS4EU — Unfiltered", doh_url: "https://unfiltered.joindns4.eu/dns-query", servers }));
    let servers = vec!["185.222.222.222", "45.11.45.11", "2a09::", "2a11::"];
    assert(servers@.map_values(|s: &str| s@) =~= seq!["185.222.222.222"@, "45.11.45.11"@, "2a09::"@, "2a11::"@]);
    entries.push((("dnssb", "std"), DohEntry { display_name: "DNS.SB — Standard", doh_url: "https://doh.dns.sb/dns-query", servers }));
    let servers = vec!["94.140.14.14", "94.140.15.15", "2a10:50c0::1:ff", "2a10:50c0::2:ff"];
    assert(servers@.map_values(|s: &str| s@) =~= seq!["94.140.14.14"@, "94.140.15.15"@, "2a10:50c0::1:ff"@, "2a10:50c0::2:ff"@]);
    entries.push((("adguard", "std"), DohEntry { display_name: "AdGuard — Standard", doh_url: "https://dns.adguard-dns.com/dns-query", servers }));
    let servers = vec!["94.140.14.15", "94.140.15.16", "2a10:50c0::bad1:ff", "2a10:50c0::bad2:ff"];
    assert(servers@.map_values(|s: &str| s@) =~= seq!["94.140.14.15"@, "94.140.15.16"@, "2a10:50c0::bad1:ff"@, "2a10:50c0::bad2:ff"@]);
    entries.push((("adguard", "family"), DohEntry { display_name: "AdGuard — Family", doh_url: "https://family.adguard-dns.com/dns-query", servers }));
    let servers = vec!["94.140.14.140", "94.140.14.141", "2a10:50c0::1:ff", "2a10:50c0::2:ff"];
    assert(servers@.map_values(|s: &str| s@) =~= seq!["94.140.14.140"@, "94.140.14.141"@, "2a10:50c0::1:ff"@, "2a10:50c0::2:ff"@]);
    entries.push((("adguard", "unf"), DohEntry { display_name: "AdGuard — Unfiltered", doh_url: "https://unfiltered.adguard-dns.com/dns-query", servers }));
    let servers = vec!["1.1.1.1", "1.0.0.1", "2606:4700:4700::1111", "2606:4700:4700::1001"];
    assert(servers@.map_values(|s: &str| s@) =~= seq!["1.1.1.1"@, "1.0.0.1"@, "2606:4700:4700::1111"@, "2606:4700:4700::1001"@]);
    entries.push((("cloudflare", "std"), DohEntry { display_name: "Cloudflare — Standard", doh_url: "https://cloudflare-dns.com/dns-query", servers }));
    let servers = vec!["1.1.1.2", "1.0.0.2", "2606:4700:4700::1112", "2606:4700:4700::1002"];
    assert(servers@.map_values(|s: &str| s@) =~= seq!["1.1.1.2"@, "1.0.0.2"@, "2606:4700:4700::1112"@, "2606:4700:4700::1002"@]);
    entries.push((("cloudflare", "mal"), DohEntry { display_name: "Cloudflare — Security", doh_url: "https://security.cloudflare-dns.com/dns-query", servers }));
    let servers = vec!["1.1.1.3", "1.0.0.3", "2606:4700:4700::1113", "2606:4700:4700::1003"];
    assert(servers@.map_values(|s: &str| s@) =~= seq!["1.1.1.3"@, "1.0.0.3"@, "2606:4700:4700::1113"@, "2606:4700:4700::1003"@]);
    entries.push((("cloudflare", "family"), DohEntry { display_name: "Cloudflare — Family", doh_url: "https://family.cloudflare-dns.com/dns-query", servers }));
    let c = DohCatalog { entries };
    assert(c.view() =~= doh_table());
    c
}

/// The plain DNS servers of a catalogue option, when it has any.
pub open spec fn classic_servers(provider: Seq<char>, option: Seq<char>) -> Option<Seq<Seq<char>>> {
    if provider == "mullvad"@ && option == "std"@ {
        Some(seq!["194.242.2.2"@])
    } else if provider == "mullvad"@ && option == "adblock"@ {
        Some(seq!["194.242.2.3"@])
    } else if provider == "mullvad"@ && option == "base"@ {
        Some(seq!["194.242.2.4"@])
    } else if provider == "mullvad"@ && option == "extended"@ {
        Some(seq!["194.242.2.5"@])
    } else if provider == "mullvad"@ && option == "family"@ {
        Some(seq!["194.242.2.6"@])
    } else if provider == "mullvad"@ && option == "all"@ {
        Some(seq!["194.242.2.9"@])
    } else if provider == "quad9"@ && option == "sec"@ {
        Some(seq!["9.9.9.9"@, "149.112.112.112"@])
    } else if provider == "quad9"@ && option == "unf"@ {
        Some(seq!["9.9.9.10"@, "149.112.112.10"@])
    } else if provider == "quad9"@ && option == "edns"@ {
        Some(seq!["9.9.9.11"@, "149.112.112.11"@])
    } else if provider == "libredns"@ && option == "std"@ {
        Some(seq!["116.202.176.26"@])
    } else if provider == "dns4eu"@ && option == "protective"@ {
        Some(seq!["86.54.11.1"@, "86.54.11.201"@])
    } else if provider == "dns4eu"@ && option == "child"@ {
        Some(seq!["86.54.11.12"@, "86.54.11.212"@])
    } else if provider == "dns4eu"@ && option == "noads"@ {
        Some(seq!["86.54.11.13"@, "86.54.11.213"@])
    } else if provider == "dns4eu"@ && option == "child-noads"@ {
        Some(seq!["86.54.11.11"@, "86.54.11.211"@])
    } else if provider == "dns4eu"@ && option == "unfiltered"@ {
        Some(seq!["86.54.11.100"@, "86.54.11.200"@])
    } else if provider == "dnssb"@ && option == "std"@ {
        Some(seq!["185.222.222.222"@, "45.11.45.11"@])
    } else if provider == "opennic"@ && option == "eu"@ {
        Some(seq!["91.190.185.43"@, "194.36.144.87"@])
    } else if provider == "adguard"@ && option == "std"@ {
        Some(seq!["94.140.14.14"@, "94.140.15.15"@])
    } else if provider == "adguard"@ && option == "family"@ {
        Some(seq!["94.140.14.15"@, "94.140.15.16"@])
    } else if provider == "adguard"@ && option == "unf"@ {
        Some(seq!["94.140.14.140"@, "94.140.14.141"@])
    } else if provider == "cloudflare"@ && option == "std"@ {
        Some(seq!["1.1.1.1"@, "1.0.0.1"@])
    } else if provider == "cloudflare"@ && option == "mal"@ {
        Some(seq!["1.1.1.2"@, "1.0.0.2"@])
    } else if provider == "cloudflare"@ && option == "family"@ {
        Some(seq!["1.1.1.3"@, "1.0.0.3"@])
    } else if provider == "dnswatch"@ && option == "std"@ {
        Some(seq!["84.200.69.80"@, "84.200.70.40"@])
    } else {
        None
    }
}

/// The plain DNS servers for a provider's option.
pub fn classic_dns_servers(provider_id: &str, option_id: &str) -> (r: Option<Vec<&'static str>>)
    ensures
        match r {
            Some(v) => classic_servers(provider_id@, option_id@) == Some(v@.map_values(|s: &str| s@)),
            None => classic_servers(provider_id@, option_id@) is None,
        },
{
    if str_eq(provider_id, "mullvad") && str_eq(option_id, "std") {
        let v = vec!["194.242.2.2"];
        assert(v@.map_values(|s: &str| s@) =~= seq!["194.242.2.2"@]);
        return Some(v);
    }
    if str_eq(provider_id, "mullvad") && str_eq(option_id, "adblock") {
        let v = vec!["194.242.2.3"];
        assert(v@.map_values(|s: &str| s@) =~= seq!["194.242.2.3"@]);
        return Some(v);
    }
    if str_eq(provider_id, "mullvad") && str_eq(option_id, "base") {
        let v = vec!["194.242.2.4"];
        assert(v@.map_values(|s: &str| s@) =~= seq!["194.242.2.4"@]);
        return Some(v);
    }
    if str_eq(provider_id, "mullvad") && str_eq(option_id, "extended") {
        let v = vec!["194.242.2.5"];
        assert(v@.map_values(|s: &str| s@) =~= seq!["194.242.2.5"@]);
        return Some(v);
    }
    if str_eq(provider_id, "mullvad") && str_eq(option_id, "family") {
        let v = vec!["194.242.2.6"];
        assert(v@.map_values(|s: &str| s@) =~= seq!["194.242.2.6"@]);
        return Some(v);
    }
    if str_eq(provider_id, "mullvad") && str_eq(option_id, "all") {
        let v = vec!["194.242.2.9"];
        assert(v@.map_values(|s: &str| s@) =~= seq!["194.242.2.9"@]);
        return Some(v);
    }
    if str_eq(provider_id, "quad9") && str_eq(option_id, "sec") {
        let v = vec!["9.9.9.9", "149.112.112.112"];
        assert(v@.map_values(|s: &str| s@) =~= seq!["9.9.9.9"@, "149.112.112.112"@]);
        return Some(v);
    }
    if str_eq(provider_id, "quad9") && str_eq(option_id, "unf") {
        let v = vec!["9.9.9.10", "149.112.112.10"];
        assert(v@.map_values(|s: &str| s@) =~= seq!["9.9.9.10"@, "149.112.112.10"@]);
        return Some(v);
    }
    if str_eq(provider_id, "quad9") && str_eq(option_id, "edns") {
        let v = vec!["9.9.9.11", "149.112.112.11"];
        assert(v@.map_values(|s: &str| s@) =~= seq!["9.9.9.11"@, "149.112.112.11"@]);
        return Some(v);
    }
    if str_eq(provider_id, "libredns") && str_eq(option_id, "std") {
        let v = vec!["116.202.176.26"];
        assert(v@.map_values(|s: &str| s@) =~= seq!["116.202.176.26"@]);
        return Some(v);
    }
    if str_eq(provider_id, "dns4eu") && str_eq(option_id, "protective") {
        let v = vec!["86.54.11.1", "86.54.11.201"];
        assert(v@.map_values(|s: &str| s@) =~= seq!["86.54.11.1"@, "86.54.11.201"@]);
        return Some(v);
    }
    if str_eq(provider_id, "dns4eu") && str_eq(option_id, "child") {
        let v = vec!["86.54.11.12", "86.54.11.212"];
        assert(v@.map_values(|s: &str| s@) =~= seq!["86.54.11.12"@, "86.54.11.212"@]);
        return Some(v);
    }
    if str_eq(provider_id, "dns4eu") && str_eq(option_id, "noads") {
        let v = vec!["86.54.11.13", "86.54.11.213"];
        assert(v@.map_values(|s: &str| s@) =~= seq!["86.54.11.13"@, "86.54.11.213"@]);
        return Some(v);
    }
    if str_eq(provider_id, "dns4eu") && str_eq(option_id, "child-noads") {
        let v = vec!["86.54.11.11", "86.54.11.211"];
        assert(v@.map_values(|s: &str| s@) =~= seq!["86.54.11.11"@, "86.54.11.211"@]);
        return Some(v);
    }
    if str_eq(provider_id, "dns4eu") && str_eq(option_id, "unfiltered") {
        let v = vec!["86.54.11.100", "86.54.11.200"];
        assert(v@.map_values(|s: &str| s@) =~= seq!["86.54.11.100"@, "86.54.11.200"@]);
        return Some(v);
    }
    if str_eq(provider_id, "dnssb") && str_eq(option_id, "std") {
        let v = vec!["185.222.222.222", "45.11.45.11"];
        assert(v@.map_values(|s: &str| s@) =~= seq!["185.222.222.222"@, "45.11.45.11"@]);
        return Some(v);
    }
    if str_eq(provider_id, "opennic") && str_eq(option_id, "eu") {
        let v = vec!["91.190.185.43", "194.36.144.87"];
        assert(v@.map_values(|s: &str| s@) =~= seq!["91.190.185.43"@, "194.36.144.87"@]);
        return Some(v);
    }
    if str_eq(provider_id, "adguard") && str_eq(option_id, "std") {
        let v = vec!["94.140.14.14", "94.140.15.15"];
        assert(v@.map_values(|s: &str| s@) =~= seq!["94.140.14.14"@, "94.140.15.15"@]);
        return Some(v);
    }
    if str_eq(provider_id, "adguard") && str_eq(option_id, "family") {
        let v = vec!["94.140.14.15", "94.140.15.16"];
        assert(v@.map_values(|s: &str| s@) =~= seq!["94.140.14.15"@, "94.140.15.16"@]);
        return Some(v);
    }
    if str_eq(provider_id, "adguard") && str_eq(option_id, "unf") {
        let v = vec!["94.140.14.140", "94.140.14.141"];
        assert(v@.map_values(|s: &str| s@) =~= seq!["94.140.14.140"@, "94.140.14.141"@]);
        return Some(v);
    }
    if str_eq(provider_id, "cloudflare") && str_eq(option_id, "std") {
        let v = vec!["1.1.1.1", "1.0.0.1"];
        assert(v@.map_values(|s: &str| s@) =~= seq!["1.1.1.1"@, "1.0.0.1"@]);
        return Some(v);
    }
    if str_eq(provider_id, "cloudflare") && str_eq(option_id, "mal") {
        let v = vec!["1.1.1.2", "1.0.0.2"];
        assert(v@.map_values(|s: &str| s@) =~= seq!["1.1.1.2"@, "1.0.0.2"@]);
        return Some(v);
    }
    if str_eq(provider_id, "cloudflare") && str_eq(option_id, "family") {
        let v = vec!["1.1.1.3", "1.0.0.3"];
        assert(v@.map_values(|s: &str| s@) =~= seq!["1.1.1.3"@, "1.0.0.3"@]);
        return Some(v);
    }
    if str_eq(provider_id, "dnswatch") && str_eq(option_id, "std") {
        let v = vec!["84.200.69.80", "84.200.70.40"];
        assert(v@.map_values(|s: &str| s@) =~= seq!["84.200.69.80"@, "84.200.70.40"@]);
        return Some(v);
    }
    None
}


// ── Configuration profile ───────────────────────────────────────────────────

/// The XML escape of one character.
pub open spec fn xml_escape_char(c: char) -> Seq<char> {
    if c == '&' {
        "&amp;"@
    } else if c == '<' {
        "&lt;"@
    } else if c == '>' {
        "&gt;"@
    } else if c == '"' {
        "&quot;"@
    } else if c == '\'' {
        "&apos;"@
    } else {
        seq![c]
    }
}

/// `s` with the five XML special characters replaced by entities.
pub open spec fn xml_escaped(s: Seq<char>) -> Seq<char>
    decreases s.len(),
{
    if s.len() == 0 {
        seq![]
    } else {
        xml_escaped(s.drop_last()) + xml_escape_char(s.last())
    }
}

/// None of `<`, `>`, `"` and `'` occurs in `s`.
pub open spec fn xml_safe(s: Seq<char>) -> bool {
    forall|i: int| 0 <= i < s.len() ==> #[trigger] s[i] != '<' && s[i] != '>' && s[i] != '"' && s[i] != '\''
}

/// Escaping leaves no markup character in the text.
pub proof fn law_xml_escape_safe(s: Seq<char>)
    ensures
        xml_safe(xml_escaped(s)),
    decreases s.len(),
{
    reveal_strlit("&amp;");
    reveal_strlit("&lt;");
    reveal_strlit("&gt;");
    reveal_strlit("&quot;");
    reveal_strlit("&apos;");
    if s.len() > 0 {
        law_xml_escape_safe(s.drop_last());
        let a = xml_escaped(s.drop_last());
        let b = xml_escape_char(s.last());
        assert forall|i: int| 0 <= i < a.len() + b.len() implies #[trigger] (a + b)[i] != '<' && (a + b)[i]
            != '>' && (a + b)[i] != '"' && (a + b)[i] != '\'' by {
            if i >= a.len() {
                assert((a + b)[i] == b[i - a.len()]);
            }
        }
    }
}

/// Escapes text for an XML document.
pub fn xml_escape(value: &str) -> (r: String)
    ensures
        r@ == xml_escaped(value@),
        xml_safe(r@),
{
    let v = chars_of(value);
    let mut out = String::new();
    let mut i: usize = 0;
    while i < v.len()
        invariant
            v@ == value@,
            i <= v@.len(),
            out@ == xml_escaped(v@.take(i as int)),
        decreases v@.len() - i,
    {
        let c = v[i];
        assert(v@.take(i + 1).drop_last() =~= v@.take(i as int));
        if c == '&' {
            push_str(&mut out, "&amp;");
        } else if c == '<' {
            push_str(&mut out, "&lt;");
        } else if c == '>' {
            push_str(&mut out, "&gt;");
        } else if c == '"' {
            push_str(&mut out, "&quot;");
        } else if c == '\'' {
            push_str(&mut out, "&apos;");
        } else {
            push_char(&mut out, c);
            assert(out@ =~= xml_escaped(v@.take(i as int)) + seq![c]);
        }
        i += 1;
    }
    assert(v@.take(v@.len() as int) =~= v@);
    proof {
        law_xml_escape_safe(value@);
    }
    out
}


/// The hexadecimal digits, upper case.
pub open spec fn hex_alphabet() -> Seq<char> {
    seq!['0', '1', '2', '3', '4', '5', '6', '7', '8', '9', 'A', 'B', 'C', 'D', 'E', 'F']
}

/// `x` written with exactly `w` upper-case hexadecimal digits (its low
/// digits when it has more).
pub open spec fn hex_fixed(x: int, w: int) -> Seq<char>
    decreases w,
{
    if w <= 0 {
        seq![]
    } else {
        hex_fixed(x / 16, w - 1).push(hex_alphabet()[x % 16])
    }
}

fn push_hex(out: &mut String, x: u64, w: usize)
    ensures
        final(out)@ == old(out)@ + hex_fixed(x as int, w as int),
    decreases w,
{
    if w > 0 {
        push_hex(out, x / 16, w - 1);
        let digits: [char; 16] = ['0', '1', '2', '3', '4', '5', '6', '7', '8', '9', 'A', 'B', 'C', 'D', 'E', 'F'];
        assert(digits@ =~= hex_alphabet());
        let d = (x % 16) as usize;
        push_char(out, digits[d]);
    }
}

/// The identifier derived from the two hash values `a` and `b`, in the
/// layout of a version-4 UUID.
pub open spec fn uuid_text(a: u64, b: u64) -> Seq<char> {
    hex_fixed((a as u32) as int, 8) + "-"@ + hex_fixed(((a >> 32u64) as u16) as int, 4) + "-4"@
        + hex_fixed(((a >> 48u64) & 0xFFF) as int, 3) + "-"@ + hex_fixed(
        (0x8000u16 | ((b & 0x3FFF) as u16)) as int,
        4,
    ) + "-"@ + hex_fixed((b & 0x0000_FFFF_FFFF_FFFF) as int, 12)
}

/// The identifier for the two hash values of a seed.
pub fn uuid_from_hashes(a: u64, b: u64) -> (r: String)
    ensures
        r@ == uuid_text(a, b),
{
    let mut out = String::new();
    push_hex(&mut out, (a as u32) as u64, 8);
    push_str(&mut out, "-");
    push_hex(&mut out, ((a >> 32u64) as u16) as u64, 4);
    push_str(&mut out, "-4");
    push_hex(&mut out, (a >> 48u64) & 0xFFF, 3);
    push_str(&mut out, "-");
    push_hex(&mut out, (0x8000u16 | ((b & 0x3FFF) as u16)) as u64, 4);
    push_str(&mut out, "-");
    push_hex(&mut out, b & 0x0000_FFFF_FFFF_FFFF, 12);
    assert(out@ =~= uuid_text(a, b));
    out
}

/// What `DefaultHasher::new()` gives once fed, as `Hash` feeds strings, each of
/// `strs`: the string's UTF-8 bytes, then the byte `0xFF`.
pub open spec fn strs_hash(strs: Seq<Seq<char>>) -> u64 {
    DefaultHasher::spec_finish(strs_hash_input(strs))
}

/// The writes that hashing each of `strs` in turn makes.
pub open spec fn strs_hash_input(strs: Seq<Seq<char>>) -> Seq<Seq<u8>>
    decreases strs.len(),
{
    if strs.len() == 0 {
        seq![]
    } else {
        strs_hash_input(strs.drop_last()).push(encode_utf8(strs.last())).push(seq![0xFFu8])
    }
}

/// Feeds a string to a hasher as `<str as Hash>::hash` does.
fn hash_str(h: &mut DefaultHasher, s: &str)
    ensures
        final(h)@ == old(h)@.push(encode_utf8(s@)).push(seq![0xFFu8]),
{
    h.write(s.as_bytes());
    let end: [u8; 1] = [0xFF];
    assert(end@ =~= seq![0xFFu8]);
    h.write(&end);
}

/// A stable identifier for a seed: the hash of the seed, then the hash of
/// the seed followed by `"seed"`, laid out as a UUID.
pub fn uuid_from_seed(seed: &str) -> (r: String)
    ensures
        r@ == uuid_text(strs_hash(seq![seed@]), strs_hash(seq![seed@, "seed"@])),
{
    let mut h = DefaultHasher::new();
    hash_str(&mut h, seed);
    let a = h.finish();
    hash_str(&mut h, "seed");
    let b = h.finish();
    proof {
        let one = seq![seed@];
        let two = seq![seed@, "seed"@];
        assert(one.drop_last() =~= Seq::<Seq<char>>::empty());
        assert(strs_hash_input(Seq::<Seq<char>>::empty()) =~= Seq::<Seq<u8>>::empty());
        assert(strs_hash_input(one.drop_last()) =~= Seq::<Seq<u8>>::empty());
        assert(one.last() == seed@);
        assert(strs_hash_input(one) =~= Seq::<Seq<u8>>::empty().push(encode_utf8(seed@)).push(seq![0xFFu8]));
        assert(two.drop_last() =~= one);
        assert(two.last() == "seed"@);
        assert(strs_hash_input(two) =~= strs_hash_input(one).push(encode_utf8("seed"@)).push(seq![0xFFu8]));
    }
    uuid_from_hashes(a, b)
}

/// One server address of the profile.
pub open spec fn server_line(s: Seq<char>) -> Seq<char> {
    "\t\t\t\t\t<string>"@ + xml_escaped(s) + "</string>"@
}

/// The server addresses of the profile, one per line.
pub open spec fn server_block(svs: Seq<Seq<char>>) -> Seq<char>
    decreases svs.len(),
{
    if svs.len() == 0 {
        seq![]
    } else if svs.len() == 1 {
        server_line(svs[0])
    } else {
        server_block(svs.drop_last()) + "\n"@ + server_line(svs.last())
    }
}

/// The profile's text, from its escaped values and identifiers.
pub open spec fn profile_text(addrs: Seq<char>, doh_url: Seq<char>, display: Seq<char>, payload_id: Seq<char>, payload_uuid: Seq<char>, root_id: Seq<char>, root_uuid: Seq<char>) -> Seq<char> {
    "<?xml version=\"1.0\" encoding=\"UTF-8\"?>\n<!DOCTYPE plist PUBLIC \"-//Apple//DTD PLIST 1.0//EN\" \"http://www.apple.com/DTDs/PropertyList-1.0.dtd\">\n<plist version=\"1.0\">\n<dict>\n\t<key>PayloadContent</key>\n\t<array>\n\t\t<dict>\n\t\t\t<key>DNSSettings</key>\n\t\t\t<dict>\n\t\t\t\t<key>DNSProtocol</key>\n\t\t\t\t<string>HTTPS</string>\n\t\t\t\t<key>ServerAddresses</key>\n\t\t\t\t<array>\n"@
        + addrs
        + "\n\t\t\t\t</array>\n\t\t\t\t<key>ServerURL</key>\n\t\t\t\t<string>"@
        + doh_url
        + "</string>\n\t\t\t</dict>\n\t\t\t<key>PayloadDescription</key>\n\t\t\t<string>Configures DNS over HTTPS</string>\n\t\t\t<key>PayloadDisplayName</key>\n\t\t\t<string>"@
        + display
        + "</string>\n\t\t\t<key>PayloadIdentifier</key>\n\t\t\t<string>"@
        + payload_id
        + "</string>\n\t\t\t<key>PayloadType</key>\n\t\t\t<string>com.apple.dnsSettings.managed</string>\n\t\t\t<key>PayloadUUID</key>\n\t\t\t<string>"@
        + payload_uuid
        + "</string>\n\t\t\t<key>PayloadVersion</key>\n\t\t\t<integer>1</integer>\n\t\t</dict>\n\t</array>\n\t<key>PayloadDescription</key>\n\t<string>DNS over HTTPS — "@
        + display
        + "</string>\n\t<key>PayloadDisplayName</key>\n\t<string>"@
        + display
        + "</string>\n\t<key>PayloadIdentifier</key>\n\t<string>"@
        + root_id
        + "</string>\n\t<key>PayloadRemovalDisallowed</key>\n\t<false/>\n\t<key>PayloadScope</key>\n\t<string>System</string>\n\t<key>PayloadType</key>\n\t<string>Configuration</string>\n\t<key>PayloadUUID</key>\n\t<string>"@
        + root_uuid
        + "</string>\n\t<key>PayloadVersion</key>\n\t<integer>1</integer>\n</dict>\n</plist>"@
}

/// The configuration profile that sets the resolver `(provider, option)`,
/// with the given identifiers.
pub open spec fn mobileconfig(
    provider: Seq<char>,
    option: Seq<char>,
    display: Seq<char>,
    doh_url: Seq<char>,
    servers: Seq<Seq<char>>,
    root_uuid: Seq<char>,
    payload_uuid: Seq<char>,
) -> Seq<char> {
    profile_text(
        server_block(servers),
        xml_escaped(doh_url),
        xml_escaped(display),
        xml_escaped("com.apple.dnsSettings.managed."@ + payload_uuid),
        payload_uuid,
        xml_escaped("net.burrow.dns."@ + provider + "."@ + option),
        root_uuid,
    )
}

/// The profile's text, given its identifiers.
pub fn doh_mobileconfig_with_ids(
    provider_id: &str,
    option_id: &str,
    display_name: &str,
    doh_url: &str,
    servers: &[String],
    root_uuid: &str,
    payload_uuid: &str,
) -> (r: String)
    ensures
        r@ == mobileconfig(
            provider_id@,
            option_id@,
            display_name@,
            doh_url@,
            servers@.map_values(|s: String| s@),
            root_uuid@,
            payload_uuid@,
        ),
{
    let ghost svs = servers@.map_values(|s: String| s@);
    let mut addrs = String::new();
    let mut i: usize = 0;
    while i < servers.len()
        invariant
            svs == servers@.map_values(|s: String| s@),
            i <= servers@.len(),
            addrs@ == server_block(svs.take(i as int)),
        decreases servers@.len() - i,
    {
        assert(svs.take(i + 1).drop_last() =~= svs.take(i as int));
        assert(svs.take(i + 1).last() == servers@[i as int]@);
        if i > 0 {
            push_str(&mut addrs, "\n");
        }
        push_str(&mut addrs, "\t\t\t\t\t<string>");
        let esc = xml_escape(servers[i].as_str());
        push_str(&mut addrs, esc.as_str());
        push_str(&mut addrs, "</string>");
        proof {
            if i == 0 {
                assert(svs.take(1)[0] == servers@[0]@);
                assert(addrs@ =~= server_line(servers@[0]@));
            } else {
                assert(addrs@ =~= server_block(svs.take(i as int)) + "\n"@ + server_line(servers@[i as int]@));
            }
        }
        i += 1;
    }
    assert(svs.take(servers@.len() as int) =~= svs);
    let mut rid = String::new();
    push_str(&mut rid, "net.burrow.dns.");
    push_str(&mut rid, provider_id);
    push_str(&mut rid, ".");
    push_str(&mut rid, option_id);
    let root_id = xml_escape(rid.as_str());
    let mut pid = String::new();
    push_str(&mut pid, "com.apple.dnsSettings.managed.");
    push_str(&mut pid, payload_uuid);
    let payload_id = xml_escape(pid.as_str());
    let display = xml_escape(display_name);
    let doh_url = xml_escape(doh_url);
    let mut root_uuid_s = String::new();
    push_str(&mut root_uuid_s, root_uuid);
    let mut payload_uuid_s = String::new();
    push_str(&mut payload_uuid_s, payload_uuid);
    let root_uuid = root_uuid_s;
    let payload_uuid = payload_uuid_s;
    let mut out = String::new();
    push_str(&mut out, "<?xml version=\"1.0\" encoding=\"UTF-8\"?>\n<!DOCTYPE plist PUBLIC \"-//Apple//DTD PLIST 1.0//EN\" \"http://www.apple.com/DTDs/PropertyList-1.0.dtd\">\n<plist version=\"1.0\">\n<dict>\n\t<key>PayloadContent</key>\n\t<array>\n\t\t<dict>\n\t\t\t<key>DNSSettings</key>\n\t\t\t<dict>\n\t\t\t\t<key>DNSProtocol</key>\n\t\t\t\t<string>HTTPS</string>\n\t\t\t\t<key>ServerAddresses</key>\n\t\t\t\t<array>\n");
    push_str(&mut out, addrs.as_str());
    push_str(&mut out, "\n\t\t\t\t</array>\n\t\t\t\t<key>ServerURL</key>\n\t\t\t\t<string>");
    push_str(&mut out, doh_url.as_str());
    push_str(&mut out, "</string>\n\t\t\t</dict>\n\t\t\t<key>PayloadDescription</key>\n\t\t\t<string>Configures DNS over HTTPS</string>\n\t\t\t<key>PayloadDisplayName</key>\n\t\t\t<string>");
    push_str(&mut out, display.as_str());
    push_str(&mut out, "</string>\n\t\t\t<key>PayloadIdentifier</key>\n\t\t\t<string>");
    push_str(&mut out, payload_id.as_str());
    push_str(&mut out, "</string>\n\t\t\t<key>PayloadType</key>\n\t\t\t<string>com.apple.dnsSettings.managed</string>\n\t\t\t<key>PayloadUUID</key>\n\t\t\t<string>");
    push_str(&mut out, payload_uuid.as_str());
    push_str(&mut out, "</string>\n\t\t\t<key>PayloadVersion</key>\n\t\t\t<integer>1</integer>\n\t\t</dict>\n\t</array>\n\t<key>PayloadDescription</key>\n\t<string>DNS over HTTPS — ");
    push_str(&mut out, display.as_str());
    push_str(&mut out, "</string>\n\t<key>PayloadDisplayName</key>\n\t<string>");
    push_str(&mut out, display.as_str());
    push_str(&mut out, "</string>\n\t<key>PayloadIdentifier</key>\n\t<string>");
    push_str(&mut out, root_id.as_str());
    push_str(&mut out, "</string>\n\t<key>PayloadRemovalDisallowed</key>\n\t<false/>\n\t<key>PayloadScope</key>\n\t<string>System</string>\n\t<key>PayloadType</key>\n\t<string>Configuration</string>\n\t<key>PayloadUUID</key>\n\t<string>");
    push_str(&mut out, root_uuid.as_str());
    push_str(&mut out, "</string>\n\t<key>PayloadVersion</key>\n\t<integer>1</integer>\n</dict>\n</plist>");
    assert(out@ =~= profile_text(
        addrs@,
        doh_url@,
        display@,
        payload_id@,
        payload_uuid@,
        root_id@,
        root_uuid@,
    ));
    out
}

/// The configuration profile that sets the encrypted resolver
/// `(provider, option)`; its identifiers are derived from the key, so that
/// installing it again replaces it.
pub fn generate_doh_mobileconfig(
    provider_id: &str,
    option_id: &str,
    display_name: &str,
    doh_url: &str,
    servers: &[String],
) -> (r: String)
    ensures
        r@ == mobileconfig(
            provider_id@,
            option_id@,
            display_name@,
            doh_url@,
            servers@.map_values(|s: String| s@),
            uuid_text(
                strs_hash(seq![provider_id@ + "_"@ + option_id@ + "r"@]),
                strs_hash(seq![provider_id@ + "_"@ + option_id@ + "r"@, "seed"@]),
            ),
            uuid_text(
                strs_hash(seq![provider_id@ + "_"@ + option_id@ + "p"@]),
                strs_hash(seq![provider_id@ + "_"@ + option_id@ + "p"@, "seed"@]),
            ),
        ),
{
    let mut rs = String::new();
    push_str(&mut rs, provider_id);
    push_str(&mut rs, "_");
    push_str(&mut rs, option_id);
    push_str(&mut rs, "r");
    let mut ps = String::new();
    push_str(&mut ps, provider_id);
    push_str(&mut ps, "_");
    push_str(&mut ps, option_id);
    push_str(&mut ps, "p");
    assert(rs@ =~= provider_id@ + "_"@ + option_id@ + "r"@);
    assert(ps@ =~= provider_id@ + "_"@ + option_id@ + "p"@);
    let root_uuid = uuid_from_seed(rs.as_str());
    let payload_uuid = uuid_from_seed(ps.as_str());
    doh_mobileconfig_with_ids(
        provider_id,
        option_id,
        display_name,
        doh_url,
        servers,
        root_uuid.as_str(),
        payload_uuid.as_str(),
    )
}

} // verus!
