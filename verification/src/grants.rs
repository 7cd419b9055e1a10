//! Short-lived authorisations issued when a scan shows a path to the user.
//!
//! A destructive command may only act on a path that a recent scan listed
//! for that kind of action, and only while the path is still the same file
//! (same device and inode, not a symbolic link). Times are read from a
//! monotonic clock, in nanoseconds, and passed in by the caller.
use vstd::prelude::*;
use crate::paths::{PathParts, path_comps};
use crate::registry::{Registry, elapsed, live_entries};
use crate::text::{push_str, str_eq};

verus! {

/// How long a path grant stays valid: thirty minutes.
pub const PATH_GRANT_TTL_NANOS: u64 = 1_800_000_000_000;

/// How long an uninstall preview stays valid: ten minutes.
pub const PREVIEW_TTL_NANOS: u64 = 600_000_000_000;

/// The action a path is authorised for.
#[derive(Clone, Copy, Debug, PartialEq, Eq, Structural)]
pub enum PathGrantPurpose {
    Trash,
    Quarantine,
    LaunchItem,
    Uninstall,
    Thin,
}

/// The bit that stands for a purpose in a grant's mask.
pub open spec fn purpose_bit(p: PathGrantPurpose) -> u8 {
    match p {
        PathGrantPurpose::Trash => 1,
        PathGrantPurpose::Quarantine => 2,
        PathGrantPurpose::LaunchItem => 4,
        PathGrantPurpose::Uninstall => 8,
        PathGrantPurpose::Thin => 16,
    }
}

impl PathGrantPurpose {
    /// The purpose's bit.
    pub fn bit(self) -> (b: u8)
        ensures
            b == purpose_bit(self),
    {
        match self {
            PathGrantPurpose::Trash => 1,
            PathGrantPurpose::Quarantine => 2,
            PathGrantPurpose::LaunchItem => 4,
            PathGrantPurpose::Uninstall => 8,
            PathGrantPurpose::Thin => 16,
        }
    }
}

/// What a grant records about the file it authorises.
#[derive(Clone, Copy, Debug, PartialEq, Eq, Structural)]
pub struct PathGrant {
    pub device: u64,
    pub inode: u64,
    pub purposes: u8,
}

/// The grants of `m` still valid at `now`.
pub open spec fn live_grants(m: Map<Seq<Seq<char>>, (u64, PathGrant)>, now: u64) -> Map<
    Seq<Seq<char>>,
    (u64, PathGrant),
> {
    live_entries(m, now, PATH_GRANT_TTL_NANOS)
}

/// The grant for `key` after granting `purpose` at `now` for the file
/// `(device, inode)`: the purposes of a grant still valid accumulate.
pub open spec fn granted(
    m: Map<Seq<Seq<char>>, (u64, PathGrant)>,
    key: Seq<Seq<char>>,
    device: u64,
    inode: u64,
    purpose: PathGrantPurpose,
    now: u64,
) -> (u64, PathGrant) {
    let live = live_grants(m, now);
    (
        now,
        PathGrant {
            device,
            inode,
            purposes: if live.dom().contains(key) {
                live[key].1.purposes | purpose_bit(purpose)
            } else {
                purpose_bit(purpose)
            },
        },
    )
}

/// The registry holds a grant for `key` that authorises `purpose` on the file
/// `(device, inode)` at `now`.
pub open spec fn authorises(
    m: Map<Seq<Seq<char>>, (u64, PathGrant)>,
    key: Seq<Seq<char>>,
    purpose: PathGrantPurpose,
    device: u64,
    inode: u64,
    now: u64,
) -> bool {
    &&& m.dom().contains(key)
    &&& elapsed(m[key].0, now) < PATH_GRANT_TTL_NANOS
    &&& m[key].1.purposes & purpose_bit(purpose) != 0
    &&& m[key].1.device == device
    &&& m[key].1.inode == inode
}

/// The refusal for a path that no valid grant covers.
pub open spec fn unauthorised_msg() -> Seq<char> {
    "Chemin non autorisé : relancez l'analyse avant cette action"@
}

/// The refusal for a symbolic link.
pub open spec fn symlink_msg() -> Seq<char> {
    "Lien symbolique refusé"@
}

/// The refusal for a path that can no longer be resolved.
pub open spec fn unreachable_msg(e: Seq<char>) -> Seq<char> {
    "Chemin autorisé devenu inaccessible : "@ + e
}

/// The registry of path grants, one per path.
pub struct PathGrants {
    reg: Registry<PathGrant>,
}

impl PathGrants {
    pub closed spec fn wf(&self) -> bool {
        self.reg.wf()
    }

    /// The grants by path, each with the time it was issued.
    pub closed spec fn view(&self) -> Map<Seq<Seq<char>>, (u64, PathGrant)> {
        self.reg.view()
    }

    /// An empty registry.
    pub fn new() -> (g: PathGrants)
        ensures
            g.wf(),
            g.view() == Map::<Seq<Seq<char>>, (u64, PathGrant)>::empty(),
    {
        PathGrants { reg: Registry::new() }
    }

    /// Records that `canonical` (the file `(device, inode)`, not a symbolic
    /// link) may be used for `purpose`. Grants no longer valid are dropped
    /// first; a valid grant for the same path keeps its other purposes.
    pub fn grant(&mut self, canonical: &str, device: u64, inode: u64, purpose: PathGrantPurpose, now: u64)
        requires
            old(self).wf(),
        ensures
            final(self).wf(),
            final(self).view() == live_grants(old(self).view(), now).insert(
                path_comps(canonical@),
                granted(old(self).view(), path_comps(canonical@), device, inode, purpose, now),
            ),
    {
        self.reg.retain_live(now, PATH_GRANT_TTL_NANOS);
        let p = PathParts::parse(canonical);
        let bit = purpose.bit();
        match self.reg.find(&p) {
            Some(a) => {
                let old_g = *self.reg.record_at(a);
                let g = PathGrant { device, inode, purposes: old_g.purposes | bit };
                self.reg.replace_at(a, now, g);
            },
            None => {
                let g = PathGrant { device, inode, purposes: bit };
                let mut s = String::new();
                push_str(&mut s, canonical);
                assert(s@ =~= canonical@);
                self.reg.push_new(s, now, g);
            },
        }
    }

    /// Whether a valid grant covers `canonical` for `purpose` on the file
    /// `(device, inode)`.
    pub fn authorises(&self, canonical: &str, purpose: PathGrantPurpose, device: u64, inode: u64, now: u64) -> (r: bool)
        requires
            self.wf(),
        ensures
            r == authorises(self.view(), path_comps(canonical@), purpose, device, inode, now),
    {
        let p = PathParts::parse(canonical);
        match self.reg.find(&p) {
            None => false,
            Some(a) => {
                let t = self.reg.stamp_at(a);
                let g = *self.reg.record_at(a);
                let age = if t > now { 0 } else { now - t };
                age < PATH_GRANT_TTL_NANOS && g.purposes & purpose.bit() != 0 && g.device == device
                    && g.inode == inode
            },
        }
    }

    /// Checks that a path may be used for `purpose`, given what resolving it
    /// gave: its canonical form, then `(is_symlink, device, inode)` for that
    /// canonical path. Returns the canonical path.
    pub fn require(
        &self,
        canonical: Result<String, String>,
        metadata: Result<(bool, u64, u64), String>,
        purpose: PathGrantPurpose,
        now: u64,
    ) -> (r: Result<String, String>)
        requires
            self.wf(),
        ensures
            match canonical {
                Err(e) => r matches Err(m) && m@ == unreachable_msg(e@),
                Ok(c) => match metadata {
                    Err(e) => r matches Err(m) && m@ == e@,
                    Ok((is_symlink, device, inode)) => if is_symlink {
                        r matches Err(m) && m@ == symlink_msg()
                    } else if authorises(self.view(), path_comps(c@), purpose, device, inode, now) {
                        r matches Ok(p) && p@ == c@
                    } else {
                        r matches Err(m) && m@ == unauthorised_msg()
                    },
                },
            },
    {
        match canonical {
            Err(e) => {
                let mut m = String::new();
                push_str(&mut m, "Chemin autorisé devenu inaccessible : ");
                push_str(&mut m, e.as_str());
                proof {
                    reveal_strlit("Chemin autorisé devenu inaccessible : ");
                }
                Err(m)
            },
            Ok(c) => match metadata {
                Err(e) => Err(e),
                Ok((is_symlink, device, inode)) => {
                    if is_symlink {
                        let mut m = String::new();
                        push_str(&mut m, "Lien symbolique refusé");
                        Err(m)
                    } else if self.authorises(c.as_str(), purpose, device, inode, now) {
                        Ok(c)
                    } else {
                        let mut m = String::new();
                        push_str(&mut m, "Chemin non autorisé : relancez l'analyse avant cette action");
                        Err(m)
                    }
                },
            },
        }
    }
}

/// Granting a path for a purpose makes it usable for that purpose, on the same
/// file, until the grant expires.
pub proof fn law_grant_then_authorised(
    m: Map<Seq<Seq<char>>, (u64, PathGrant)>,
    key: Seq<Seq<char>>,
    device: u64,
    inode: u64,
    purpose: PathGrantPurpose,
    granted_at: u64,
    now: u64,
)
    requires
        granted_at <= now,
        now - granted_at < PATH_GRANT_TTL_NANOS,
    ensures
        authorises(
            live_grants(m, granted_at).insert(key, granted(m, key, device, inode, purpose, granted_at)),
            key,
            purpose,
            device,
            inode,
            now,
        ),
{
    let b = purpose_bit(purpose);
    let live = live_grants(m, granted_at);
    if live.dom().contains(key) {
        let x = live[key].1.purposes;
        assert((x | b) & b != 0) by (bit_vector)
            requires
                b == 1 || b == 2 || b == 4 || b == 8 || b == 16,
        ;
    } else {
        assert(b & b != 0) by (bit_vector)
            requires
                b == 1 || b == 2 || b == 4 || b == 8 || b == 16,
        ;
    }
}

/// Granting another purpose on a path keeps the purposes of its grant while
/// that grant is still valid.
pub proof fn law_purposes_accumulate(
    m: Map<Seq<Seq<char>>, (u64, PathGrant)>,
    key: Seq<Seq<char>>,
    device: u64,
    inode: u64,
    first: PathGrantPurpose,
    second: PathGrantPurpose,
    now: u64,
)
    requires
        m.dom().contains(key),
        elapsed(m[key].0, now) < PATH_GRANT_TTL_NANOS,
        m[key].1.purposes & purpose_bit(first) != 0,
    ensures
        authorises(
            live_grants(m, now).insert(key, granted(m, key, device, inode, second, now)),
            key,
            first,
            device,
            inode,
            now,
        ),
{
    let live = live_grants(m, now);
    assert(live.dom().contains(key));
    let x = m[key].1.purposes;
    let a = purpose_bit(first);
    let b = purpose_bit(second);
    assert(x & a != 0 ==> (x | b) & a != 0) by (bit_vector);
}

/// A grant authorises nothing once it has expired, nor on another file.
pub proof fn law_no_valid_grant_refused(
    m: Map<Seq<Seq<char>>, (u64, PathGrant)>,
    key: Seq<Seq<char>>,
    purpose: PathGrantPurpose,
    device: u64,
    inode: u64,
    now: u64,
)
    requires
        m.dom().contains(key) ==> elapsed(m[key].0, now) >= PATH_GRANT_TTL_NANOS
            || m[key].1.device != device || m[key].1.inode != inode,
    ensures
        !authorises(m, key, purpose, device, inode, now),
{
}

// ── Uninstall previews ──────────────────────────────────────────────────────

/// The files an uninstall preview listed for an application.
pub struct PreviewGrant {
    pub name: String,
    pub bundle_id: String,
    pub paths: Vec<String>,
}

/// The refusal for an uninstall whose preview is missing or stale.
pub open spec fn preview_expired_msg() -> Seq<char> {
    "Aperçu Mole expiré : ouvrez à nouveau l'application avant de la désinstaller"@
}

/// The preview for `key` in `m` is valid at `now` for `(name, bundle_id)`.
pub open spec fn preview_matches(
    m: Map<Seq<Seq<char>>, (u64, PreviewGrant)>,
    key: Seq<Seq<char>>,
    name: Seq<char>,
    bundle_id: Seq<char>,
    now: u64,
) -> bool {
    let live = live_entries(m, now, PREVIEW_TTL_NANOS);
    &&& live.dom().contains(key)
    &&& live[key].1.name@ == name
    &&& live[key].1.bundle_id@ == bundle_id
}

/// The registry of uninstall previews, one per application path.
pub struct PreviewGrants {
    reg: Registry<PreviewGrant>,
}

impl PreviewGrants {
    pub closed spec fn wf(&self) -> bool {
        self.reg.wf()
    }

    /// The previews by application path, each with the time it was made.
    pub closed spec fn view(&self) -> Map<Seq<Seq<char>>, (u64, PreviewGrant)> {
        self.reg.view()
    }

    /// An empty registry.
    pub fn new() -> (g: PreviewGrants)
        ensures
            g.wf(),
            g.view() == Map::<Seq<Seq<char>>, (u64, PreviewGrant)>::empty(),
    {
        PreviewGrants { reg: Registry::new() }
    }

    /// Records the files a preview listed for the application at `path`,
    /// replacing an earlier preview for it; stale previews are dropped first.
    pub fn grant(&mut self, path: &str, name: &str, bundle_id: &str, paths: Vec<String>, now: u64)
        requires
            old(self).wf(),
        ensures
            final(self).wf(),
            final(self).view().remove(path_comps(path@)) == live_entries(
                old(self).view(),
                now,
                PREVIEW_TTL_NANOS,
            ).remove(path_comps(path@)),
            final(self).view().dom().contains(path_comps(path@)),
            final(self).view()[path_comps(path@)].0 == now,
            final(self).view()[path_comps(path@)].1.name@ == name@,
            final(self).view()[path_comps(path@)].1.bundle_id@ == bundle_id@,
            final(self).view()[path_comps(path@)].1.paths.deep_view() == paths.deep_view(),
    {
        self.reg.retain_live(now, PREVIEW_TTL_NANOS);
        let ghost live = self.reg.view();
        let p = PathParts::parse(path);
        let mut n = String::new();
        push_str(&mut n, name);
        let mut b = String::new();
        push_str(&mut b, bundle_id);
        assert(n@ =~= name@);
        assert(b@ =~= bundle_id@);
        let g = PreviewGrant { name: n, bundle_id: b, paths };
        match self.reg.find(&p) {
            Some(a) => {
                self.reg.replace_at(a, now, g);
            },
            None => {
                let mut s = String::new();
                push_str(&mut s, path);
                assert(s@ =~= path@);
                self.reg.push_new(s, now, g);
            },
        }
        assert(self.view().remove(path_comps(path@)) =~= live.remove(path_comps(path@)));
    }

    /// Takes the preview for the application at `path` if it is still valid
    /// and was made for `(name, bundle_id)`, returning the files it listed.
    /// Stale previews are dropped either way.
    pub fn consume(&mut self, path: &str, name: &str, bundle_id: &str, now: u64) -> (r: Result<Vec<String>, String>)
        requires
            old(self).wf(),
        ensures
            final(self).wf(),
            if preview_matches(old(self).view(), path_comps(path@), name@, bundle_id@, now) {
                &&& r matches Ok(v) && v.deep_view() == live_entries(
                    old(self).view(),
                    now,
                    PREVIEW_TTL_NANOS,
                )[path_comps(path@)].1.paths.deep_view()
                &&& final(self).view() == live_entries(old(self).view(), now, PREVIEW_TTL_NANOS).remove(
                    path_comps(path@),
                )
            } else {
                &&& r matches Err(m) && m@ == preview_expired_msg()
                &&& final(self).view() == live_entries(old(self).view(), now, PREVIEW_TTL_NANOS)
            },
    {
        self.reg.retain_live(now, PREVIEW_TTL_NANOS);
        let p = PathParts::parse(path);
        let found = self.reg.find(&p);
        let valid = match found {
            Some(a) => {
                let g = self.reg.record_at(a);
                str_eq(g.name.as_str(), name) && str_eq(g.bundle_id.as_str(), bundle_id)
            },
            None => false,
        };
        if !valid {
            let mut m = String::new();
            push_str(&mut m, "Aperçu Mole expiré : ouvrez à nouveau l'application avant de la désinstaller");
            return Err(m);
        }
        let a = found.unwrap();
        let g = self.reg.remove_at(a);
        Ok(g.paths)
    }
}

/// A preview, once granted, can be consumed for the same application within
/// ten minutes, and gives back the files it listed.
pub proof fn law_preview_consumable(
    m: Map<Seq<Seq<char>>, (u64, PreviewGrant)>,
    key: Seq<Seq<char>>,
    name: Seq<char>,
    bundle_id: Seq<char>,
    granted_at: u64,
    now: u64,
)
    requires
        m.dom().contains(key),
        m[key].0 == granted_at,
        m[key].1.name@ == name,
        m[key].1.bundle_id@ == bundle_id,
        granted_at <= now,
        now - granted_at < PREVIEW_TTL_NANOS,
    ensures
        preview_matches(m, key, name, bundle_id, now),
        live_entries(m, now, PREVIEW_TTL_NANOS)[key] == m[key],
{
}

/// A preview is used at most once: after it is consumed, the same request is
/// refused.
pub proof fn law_preview_single_use(
    m: Map<Seq<Seq<char>>, (u64, PreviewGrant)>,
    key: Seq<Seq<char>>,
    name: Seq<char>,
    bundle_id: Seq<char>,
    now: u64,
    later: u64,
)
    ensures
        !preview_matches(live_entries(m, now, PREVIEW_TTL_NANOS).remove(key), key, name, bundle_id, later),
{
}

} // verus!
