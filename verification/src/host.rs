//! The host entry data model: one `Host` block of the configuration file,
//! with the fields this tool manages and the directives it preserves
//! opaquely.

use vstd::prelude::*;
use vstd::string::StringExecFns;

verus! {

/// The abstract value of a host entry: plain character sequences, a port
/// number, and the extra directives in order.
#[verifier::ext_equal]
pub struct HostView {
    pub alias: Seq<char>,
    pub hostname: Seq<char>,
    pub port: u16,
    pub user: Seq<char>,
    pub identity_file: Seq<char>,
    pub extra_options: Seq<(Seq<char>, Seq<char>)>,
}

/// A host entry is valid when both its alias and its hostname are
/// non-empty.
pub open spec fn host_valid(h: HostView) -> bool {
    h.alias.len() > 0 && h.hostname.len() > 0
}

/// The abstract value of a list of option pairs.
pub open spec fn pairs_view(s: Seq<(String, String)>) -> Seq<(Seq<char>, Seq<char>)> {
    s.map_values(|p: (String, String)| (p.0@, p.1@))
}

/// The view of a fresh host entry: everything empty, port 22.
pub open spec fn empty_host_view() -> HostView {
    HostView {
        alias: Seq::empty(),
        hostname: Seq::empty(),
        port: 22,
        user: Seq::empty(),
        identity_file: Seq::empty(),
        extra_options: Seq::empty(),
    }
}

/// One entry of the SSH client configuration. `alias` is the name given on
/// the `Host` line; `extra_options` holds, in order, every directive of the
/// block that is not mapped to a first-class field.
#[derive(Debug)]
pub struct SshHost {
    pub alias: String,
    pub hostname: String,
    pub port: u16,
    pub user: String,
    pub identity_file: String,
    pub extra_options: Vec<(String, String)>,
}

impl View for SshHost {
    type V = HostView;

    open spec fn view(&self) -> HostView {
        HostView {
            alias: self.alias@,
            hostname: self.hostname@,
            port: self.port,
            user: self.user@,
            identity_file: self.identity_file@,
            extra_options: pairs_view(self.extra_options@),
        }
    }
}

fn clone_pairs(v: &Vec<(String, String)>) -> (r: Vec<(String, String)>)
    ensures
        pairs_view(r@) == pairs_view(v@),
{
    let mut r: Vec<(String, String)> = Vec::new();
    let mut i: usize = 0;
    while i < v.len()
        invariant
            0 <= i <= v@.len(),
            r@.len() == i,
            forall|j: int| 0 <= j < i ==> pairs_view(r@)[j] == pairs_view(v@)[j],
        decreases v@.len() - i,
    {
        let p = &v[i];
        r.push((p.0.clone(), p.1.clone()));
        i = i + 1;
    }
    proof {
        assert(pairs_view(r@) =~= pairs_view(v@));
    }
    r
}

impl Clone for SshHost {
    /// A clone has the same abstract value.
    fn clone(&self) -> (r: Self)
        ensures
            r@ == self@,
    {
        SshHost {
            alias: self.alias.clone(),
            hostname: self.hostname.clone(),
            port: self.port,
            user: self.user.clone(),
            identity_file: self.identity_file.clone(),
            extra_options: clone_pairs(&self.extra_options),
        }
    }
}

impl SshHost {
    /// A fresh entry: all fields empty, port 22.
    pub fn empty() -> (r: Self)
        ensures
            r@ == empty_host_view(),
    {
        let r = SshHost {
            alias: String::new(),
            hostname: String::new(),
            port: 22,
            user: String::new(),
            identity_file: String::new(),
            extra_options: Vec::new(),
        };
        proof {
            assert(r@ =~= empty_host_view());
        }
        r
    }

    /// The hostname when one is set, else the alias.
    pub fn display_host(&self) -> (r: &str)
        ensures
            r@ == if self.hostname@.len() == 0 {
                self.alias@
            } else {
                self.hostname@
            },
    {
        if self.hostname.as_str().is_empty() {
            self.alias.as_str()
        } else {
            self.hostname.as_str()
        }
    }

    /// The shell command that opens a session to this entry.
    pub fn as_ssh_command(&self) -> (r: String)
        ensures
            r@ == "ssh "@ + self.alias@,
    {
        let mut s = String::from_str("ssh ");
        s.append(self.alias.as_str());
        s
    }

    /// The argument list handed to the session launcher: the alias alone.
    pub fn as_ssh_args(&self) -> (r: Vec<String>)
        ensures
            r@.len() == 1,
            r@[0]@ == self.alias@,
    {
        let mut r: Vec<String> = Vec::new();
        r.push(self.alias.clone());
        r
    }

    /// Both required fields are present.
    pub fn is_valid(&self) -> (r: bool)
        ensures
            r == host_valid(self@),
    {
        !self.alias.as_str().is_empty() && !self.hostname.as_str().is_empty()
    }

    /// The port differs from the default 22.
    pub fn has_custom_port(&self) -> (r: bool)
        ensures
            r == (self.port != 22),
    {
        self.port != 22
    }

    pub fn has_identity_file(&self) -> (r: bool)
        ensures
            r == (self.identity_file@.len() > 0),
    {
        !self.identity_file.as_str().is_empty()
    }

    pub fn has_extra_options(&self) -> (r: bool)
        ensures
            r == (self@.extra_options.len() > 0),
    {
        self.extra_options.len() > 0
    }
}

} // verus!
