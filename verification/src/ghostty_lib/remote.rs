//! Remote host configuration.
use vstd::prelude::*;

use crate::text::{str_eq, str_views};

verus! {

/// A remote host reached over SSH (or mosh for interactive sessions).
#[derive(Debug, Clone)]
pub struct RemoteConfig {
    pub host: String,
    pub user: Option<String>,
    /// Directories on the remote to scan for git repos
    pub scan_dirs: Vec<String>,
    /// "ssh" (default) or "mosh" for interactive sessions
    pub transport: String,
}

/// The model of a [`RemoteConfig`].
pub struct RemoteView {
    pub host: Seq<char>,
    pub user: Option<Seq<char>>,
    pub scan_dirs: Seq<Seq<char>>,
    pub transport: Seq<char>,
}

/// The characters of an optional string.
pub open spec fn opt_view(o: Option<String>) -> Option<Seq<char>> {
    match o {
        Some(s) => Some(s@),
        None => None,
    }
}

impl View for RemoteConfig {
    type V = RemoteView;

    open spec fn view(&self) -> RemoteView {
        RemoteView {
            host: self.host@,
            user: opt_view(self.user),
            scan_dirs: str_views(self.scan_dirs@),
            transport: self.transport@,
        }
    }
}

/// `user@host`, or the host alone.
pub open spec fn ssh_target_of(r: RemoteView) -> Seq<char> {
    match r.user {
        Some(u) => u + "@"@ + r.host,
        None => r.host,
    }
}

/// Interactive sessions use mosh.
pub open spec fn uses_mosh(r: RemoteView) -> bool {
    r.transport == "mosh"@
}

/// The transport used when none is configured.
pub fn default_transport() -> (r: String)
    ensures
        r@ == "ssh"@,
{
    String::from_str("ssh")
}

/// A copy of an optional string.
pub fn copy_opt(o: &Option<String>) -> (r: Option<String>)
    ensures
        r == *o,
        opt_view(r) == opt_view(*o),
{
    match o {
        Some(s) => Some(s.clone()),
        None => None,
    }
}

/// A copy of a list of strings.
pub fn copy_strings(v: &Vec<String>) -> (r: Vec<String>)
    ensures
        r@ == v@,
        str_views(r@) == str_views(v@),
{
    let mut r: Vec<String> = Vec::new();
    let mut i: usize = 0;
    while i < v.len()
        invariant
            i <= v.len(),
            r@ == v@.take(i as int),
        decreases v.len() - i,
    {
        r.push(v[i].clone());
        assert(r@ =~= v@.take(i + 1));
        i = i + 1;
    }
    assert(v@.take(i as int) =~= v@);
    r
}

impl RemoteConfig {
    /// A remote with the given host, no user, no scan directories and the default transport.
    pub fn with_host(host: String) -> (r: RemoteConfig)
        ensures
            r@.host == host@,
            r@.user is None,
            r@.scan_dirs == Seq::<Seq<char>>::empty(),
            r@.transport == "ssh"@,
    {
        let r = RemoteConfig { host, user: None, scan_dirs: Vec::new(), transport: default_transport() };
        assert(r@.scan_dirs =~= Seq::<Seq<char>>::empty());
        r
    }

    /// A copy with the same contents.
    pub fn duplicate(&self) -> (r: RemoteConfig)
        ensures
            r@ == self@,
    {
        RemoteConfig {
            host: self.host.clone(),
            user: copy_opt(&self.user),
            scan_dirs: copy_strings(&self.scan_dirs),
            transport: self.transport.clone(),
        }
    }

    /// The SSH destination: `user@host`, or `host` when no user is set.
    pub fn ssh_target(&self) -> (r: String)
        ensures
            r@ == ssh_target_of(self@),
    {
        match &self.user {
            Some(user) => {
                let mut t = user.clone();
                t.append("@");
                t.append(self.host.as_str());
                t
            },
            None => self.host.clone(),
        }
    }

    /// Whether interactive sessions go over mosh (`transport == "mosh"`).
    pub fn use_mosh(&self) -> (b: bool)
        ensures
            b == uses_mosh(self@),
    {
        str_eq(self.transport.as_str(), "mosh")
    }
}

} // verus!
