//! Choices made from the command line and the environment.
use vstd::prelude::*;

verus! {

/// Traffic source.
#[derive(Clone, Copy, PartialEq, Eq, Structural, Debug)]
pub enum Mode {
    /// Passive libpcap capture (cleartext only).
    Pcap,
    /// Local TLS-terminating proxy.
    Mitm,
}

/// `name` below the directory `base`.
pub open spec fn below(base: Seq<char>, name: Seq<char>) -> Seq<char> {
    if base.len() == 0 {
        name
    } else if base.last() == '/' {
        base + name
    } else {
        base + "/"@ + name
    }
}

pub fn join_below(base: &str, name: &str) -> (s: String)
    ensures
        s@ == below(base@, name@),
{
    let v = crate::text::chars_of(base);
    let mut s = base.to_owned();
    if v.len() > 0 && v[v.len() - 1] != '/' {
        s.append("/");
    }
    s.append(name);
    assert(s@ =~= below(base@, name@));
    s
}

/// Default on-disk location for the auto-generated CA and server cert: below the
/// user's configuration directory, else below the home directory, else here.
pub open spec fn tls_dir_of(xdg: Option<Seq<char>>, home: Option<Seq<char>>) -> Seq<char> {
    match xdg {
        Some(dir) => below(dir, "tapgres"@),
        None => match home {
            Some(dir) => below(below(dir, ".config"@), "tapgres"@),
            None => ".tapgres"@,
        },
    }
}

/// The default directory for certificates, given `XDG_CONFIG_HOME` and `HOME`.
pub fn default_tls_dir(xdg: Option<&str>, home: Option<&str>) -> (s: String)
    ensures
        s@ == tls_dir_of(crate::render::opt_str(xdg), crate::render::opt_str(home)),
{
    match xdg {
        Some(dir) => join_below(dir, "tapgres"),
        None => match home {
            Some(dir) => join_below(join_below(dir, ".config").as_str(), "tapgres"),
            None => ".tapgres".to_owned(),
        },
    }
}

} // verus!
