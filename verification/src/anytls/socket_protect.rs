//! Hooks for outbound sockets, and the order in which a dial tries its ways.
use crate::io_error::{ErrorKind, IoError};
use crate::net::SocketAddr;
use crate::text;
use vstd::prelude::*;

verus! {

/// A hook that the host may install: a socket protector, a dialer.
#[derive(Debug)]
pub struct Hook<T> {
    pub installed: Option<T>,
}

impl<T> Hook<T> {
    /// No hook.
    pub fn none() -> (h: Self)
        ensures
            h.installed is None,
    {
        Hook { installed: None }
    }

    /// The installed hook.
    pub fn get(&self) -> (out: Option<&T>)
        ensures
            match out {
                Some(t) => self.installed == Some(*t),
                None => self.installed is None,
            },
    {
        self.installed.as_ref()
    }
}

/// Installs the socket protector; it takes the place of the one before.
pub fn set_socket_protector<T>(hook: &mut Hook<T>, protector: T)
    ensures
        final(hook).installed == Some(protector),
{
    hook.installed = Some(protector);
}

/// Removes the socket protector.
pub fn clear_socket_protector<T>(hook: &mut Hook<T>)
    ensures
        final(hook).installed is None,
{
    hook.installed = None;
}

/// The installed protector.
pub fn socket_protector<T>(hook: &Hook<T>) -> (out: Option<&T>)
    ensures
        match out {
            Some(t) => hook.installed == Some(*t),
            None => hook.installed is None,
        },
{
    hook.get()
}

/// Installs the dialer; it takes the place of the one before.
pub fn set_tcp_dialer<T>(hook: &mut Hook<T>, dialer: T)
    ensures
        final(hook).installed == Some(dialer),
{
    hook.installed = Some(dialer);
}

/// Removes the dialer.
pub fn clear_tcp_dialer<T>(hook: &mut Hook<T>)
    ensures
        final(hook).installed is None,
{
    hook.installed = None;
}

/// The installed dialer.
pub fn tcp_dialer<T>(hook: &Hook<T>) -> (out: Option<&T>)
    ensures
        match out {
            Some(t) => hook.installed == Some(*t),
            None => hook.installed is None,
        },
{
    hook.get()
}

/// A host without the brackets around it, where it has both.
pub open spec fn unbracketed(host: Seq<char>) -> Seq<char> {
    if host.len() >= 2 && host[0] == '[' && host.last() == ']' {
        host.subrange(1, host.len() - 1)
    } else {
        host
    }
}

/// The host and the port of an address: a port behind the last colon and a
/// host before it, in brackets or not.
pub open spec fn host_and_port(addr: Seq<char>) -> Option<(Seq<char>, u16)> {
    match text::rsplit_once_of(addr, ':') {
        None => None,
        Some((host, port)) => match text::number_of(port, 0xffff) {
            None => None,
            Some(p) => if unbracketed(host).len() == 0 {
                None
            } else {
                Some((unbracketed(host), p as u16))
            },
        },
    }
}

/// The host and the port of an address.
pub fn split_host_port(addr: &str) -> (out: Option<(String, u16)>)
    ensures
        match out {
            Some(p) => host_and_port(addr@) == Some((p.0@, p.1)),
            None => host_and_port(addr@) is None,
        },
{
    match text::rsplit_once(addr, ':') {
        None => None,
        Some((host, port)) => match text::parse_port(port.as_str()) {
            None => None,
            Some(p) => {
                let chars = text::chars_of(host.as_str());
                let n: usize = chars.len();
                let bare = if n >= 2 && chars[0] == '[' && chars[n - 1] == ']' {
                    text::sub_text(&chars, 1, n - 1)
                } else {
                    host
                };
                if bare.as_str().is_empty() {
                    None
                } else {
                    Some((bare, p))
                }
            },
        },
    }
}

/// How an address is dialed.
#[derive(Debug)]
pub enum DialWay {
    /// By the installed dialer.
    Dialer { host: String, port: u16 },
    /// By resolving and connecting.
    Direct,
}

/// How an address is dialed: by the dialer, where one is installed and the
/// address has a host and a port.
pub fn dial_way(addr: &str, dialer_installed: bool) -> (way: DialWay)
    ensures
        if dialer_installed && host_and_port(addr@) is Some {
            way matches DialWay::Dialer { host, port } && host_and_port(addr@) == Some((host@, port))
        } else {
            way is Direct
        },
{
    if dialer_installed {
        if let Some((host, port)) = split_host_port(addr) {
            return DialWay::Dialer { host, port };
        }
    }
    DialWay::Direct
}

/// Tries addresses one after the other until one connects.
#[derive(Debug)]
pub struct Candidates {
    addrs: Vec<SocketAddr>,
    at: usize,
    last_err: Option<IoError>,
}

impl Candidates {
    /// All the addresses, tried or not.
    pub closed spec fn all(&self) -> Seq<SocketAddr> {
        self.addrs@
    }

    /// How many addresses failed.
    pub closed spec fn tried(&self) -> int {
        self.at as int
    }

    /// How the last one failed.
    pub closed spec fn last_failure(&self) -> Option<IoError> {
        self.last_err
    }

    /// Every address that failed has an error.
    pub open spec fn wf(&self) -> bool {
        0 <= self.tried() <= self.all().len() && (self.tried() > 0 <==> self.last_failure() is Some)
    }

    /// Nothing was tried.
    pub fn new(addrs: Vec<SocketAddr>) -> (c: Self)
        ensures
            c.wf(),
            c.all() == addrs@,
            c.tried() == 0,
    {
        Candidates { addrs, at: 0, last_err: None }
    }

    /// The address to try next; none once all have failed.
    pub fn next(&self) -> (addr: Option<SocketAddr>)
        requires
            self.wf(),
        ensures
            addr == if self.tried() < self.all().len() {
                Some(self.all()[self.tried()])
            } else {
                None
            },
    {
        if self.at < self.addrs.len() {
            Some(self.addrs[self.at])
        } else {
            None
        }
    }

    /// The address tried last failed.
    pub fn failed(&mut self, e: IoError)
        requires
            old(self).wf(),
            old(self).tried() < old(self).all().len(),
        ensures
            final(self).wf(),
            final(self).all() == old(self).all(),
            final(self).tried() == old(self).tried() + 1,
            final(self).last_failure() == Some(e),
    {
        let count: usize = self.addrs.len();
        assert(self.at < count);
        self.at = self.at + 1;
        self.last_err = Some(e);
    }

    /// The error of a dial in which nothing connected: that of the last
    /// address, or that there was none.
    pub fn into_error(self, none: &str) -> (e: IoError)
        requires
            self.wf(),
            self.tried() == self.all().len(),
        ensures
            if self.all().len() == 0 {
                e.is_error(ErrorKind::InvalidInput, none@)
            } else {
                Some(e) == self.last_failure()
            },
    {
        match self.last_err {
            Some(e) => e,
            None => IoError::new(ErrorKind::InvalidInput, none),
        }
    }
}

} // verus!
