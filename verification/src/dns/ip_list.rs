//! The address lists that the answer cache hands out: short lists that stay
//! off the heap.
use crate::net::IpAddr;
use vstd::prelude::*;

verus! {

/// The addresses of an answer, in a `smallvec::SmallVec` with room for two of
/// them in place. What it holds is known only through [`listed`].
#[verifier::external_body]
#[derive(Debug)]
pub struct IpList {
    items: smallvec::SmallVec<[IpAddr; 2]>,
}

/// The addresses in a list, in their order.
pub uninterp spec fn listed(list: IpList) -> Seq<IpAddr>;

impl View for IpList {
    type V = Seq<IpAddr>;

    open spec fn view(&self) -> Seq<IpAddr> {
        listed(*self)
    }
}

/// `SmallVec::new` makes a list without items.
#[verifier::external_body]
fn empty_list() -> (list: IpList)
    ensures
        listed(list) == Seq::<IpAddr>::empty(),
{
    IpList { items: smallvec::SmallVec::new() }
}

/// `SmallVec::extend_from_slice` puts the items of a slice behind those of
/// the list, in their order.
#[verifier::external_body]
fn extend_list(list: &mut IpList, ips: &[IpAddr])
    ensures
        listed(*final(list)) == listed(*old(list)) + ips@,
{
    list.items.extend_from_slice(ips)
}

/// `SmallVec::as_slice` shows the items of the list, in their order.
#[verifier::external_body]
fn list_slice(list: &IpList) -> (ips: &[IpAddr])
    ensures
        ips@ == listed(*list),
{
    list.items.as_slice()
}

impl IpList {
    /// A list without addresses.
    pub fn new() -> (list: IpList)
        ensures
            list@ == Seq::<IpAddr>::empty(),
    {
        empty_list()
    }

    /// Puts addresses at the end.
    pub fn extend_from_slice(&mut self, ips: &[IpAddr])
        ensures
            final(self)@ == old(self)@ + ips@,
    {
        extend_list(self, ips)
    }

    /// The addresses, in their order.
    pub fn as_slice(&self) -> (ips: &[IpAddr])
        ensures
            ips@ == self@,
    {
        list_slice(self)
    }
}

} // verus!
