//! The resolver that the names of proxy servers go through.
use crate::io_error::{ErrorKind, IoError};
use crate::text;
use vstd::prelude::*;

verus! {

/// Looks up the names of proxy servers: with a resolver of their own where one
/// is set, else with the main one.
#[derive(Debug)]
pub struct ResolverHostHook<R> {
    resolver: R,
    proxy_resolver: Option<R>,
}

impl<R> ResolverHostHook<R> {
    /// The main resolver.
    pub closed spec fn primary(&self) -> R {
        self.resolver
    }

    /// The resolver for proxy servers, where one is set.
    pub closed spec fn own(&self) -> Option<R> {
        self.proxy_resolver
    }

    /// The resolver that is asked, and the only one: the main resolver is not
    /// asked where the other one fails.
    pub open spec fn asked(&self) -> R {
        match self.own() {
            Some(r) => r,
            None => self.primary(),
        }
    }

    /// Names go through the main resolver.
    pub fn new(resolver: R) -> (h: Self)
        ensures
            h.primary() == resolver,
            h.own() is None,
    {
        ResolverHostHook { resolver, proxy_resolver: None }
    }

    /// Names go through the resolver for proxy servers, where one is given.
    pub fn new_with_proxy_resolver(resolver: R, proxy_resolver: Option<R>) -> (h: Self)
        ensures
            h.primary() == resolver,
            h.own() == proxy_resolver,
    {
        ResolverHostHook { resolver, proxy_resolver }
    }

    /// The resolver that is asked.
    pub fn active(&self) -> (r: &R)
        ensures
            *r == self.asked(),
    {
        match &self.proxy_resolver {
            Some(r) => r,
            None => &self.resolver,
        }
    }
}

/// The outcome of a lookup: what the resolver that was asked found, or that it
/// found nothing.
pub fn found_or_error<T>(host: &str, found: Option<T>) -> (r: Result<T, IoError>)
    ensures
        match found {
            Some(t) => r == Ok::<T, IoError>(t),
            None => r matches Err(e) && e.is_error(
                ErrorKind::NotFound,
                "meow-dns resolver: no address for "@ + host@,
            ),
        },
{
    match found {
        Some(t) => Ok(t),
        None => Err(
            IoError {
                kind: ErrorKind::NotFound,
                message: text::join2("meow-dns resolver: no address for ", host),
            },
        ),
    }
}

} // verus!
