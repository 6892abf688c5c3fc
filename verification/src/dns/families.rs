//! Sets of address families.
use crate::net::IpAddr;
use vstd::prelude::*;

verus! {

/// The address families a lookup concerns: the one place that maps record
/// types and addresses to families.
#[allow(clippy::upper_case_acronyms)]
#[derive(Clone, Copy, Debug, PartialEq, Eq, Structural, Hash)]
pub enum QueryFamilies {
    /// No family.
    NONE,
    IPV4,
    IPV6,
    /// Both families, the dual-stack query set.
    BOTH,
}

/// The code of the record type for an IPv4 address.
pub const TYPE_A: u16 = 1;

/// The code of the record type for an IPv6 address.
pub const TYPE_AAAA: u16 = 28;

/// The family of one address.
pub open spec fn family_of(ip: IpAddr) -> QueryFamilies {
    if ip is V4 {
        QueryFamilies::IPV4
    } else {
        QueryFamilies::IPV6
    }
}

impl QueryFamilies {
    /// Whether the set holds IPv4.
    pub open spec fn has_v4(self) -> bool {
        self is IPV4 || self is BOTH
    }

    /// Whether the set holds IPv6.
    pub open spec fn has_v6(self) -> bool {
        self is IPV6 || self is BOTH
    }

    /// The set that holds exactly the families marked by the two flags.
    pub open spec fn of(v4: bool, v6: bool) -> Self {
        if v4 && v6 {
            QueryFamilies::BOTH
        } else if v4 {
            QueryFamilies::IPV4
        } else if v6 {
            QueryFamilies::IPV6
        } else {
            QueryFamilies::NONE
        }
    }

    /// Whether every family of `family` is in the set.
    pub open spec fn includes(self, family: Self) -> bool {
        (family.has_v4() ==> self.has_v4()) && (family.has_v6() ==> self.has_v6())
    }

    fn make(v4: bool, v6: bool) -> (r: Self)
        ensures
            r == Self::of(v4, v6),
    {
        if v4 && v6 {
            QueryFamilies::BOTH
        } else if v4 {
            QueryFamilies::IPV4
        } else if v6 {
            QueryFamilies::IPV6
        } else {
            QueryFamilies::NONE
        }
    }

    fn v4(self) -> (b: bool)
        ensures
            b == self.has_v4(),
    {
        match self {
            QueryFamilies::IPV4 => true,
            QueryFamilies::BOTH => true,
            _ => false,
        }
    }

    fn v6(self) -> (b: bool)
        ensures
            b == self.has_v6(),
    {
        match self {
            QueryFamilies::IPV6 => true,
            QueryFamilies::BOTH => true,
            _ => false,
        }
    }

    /// The family that a DNS record type asks for; none for a type that holds
    /// no address.
    pub fn from_record_type(record_type: u16) -> (r: Self)
        ensures
            r == (if record_type == TYPE_A {
                QueryFamilies::IPV4
            } else if record_type == TYPE_AAAA {
                QueryFamilies::IPV6
            } else {
                QueryFamilies::NONE
            }),
    {
        if record_type == TYPE_A {
            QueryFamilies::IPV4
        } else if record_type == TYPE_AAAA {
            QueryFamilies::IPV6
        } else {
            QueryFamilies::NONE
        }
    }

    /// The families that occur in a list of addresses.
    pub fn from_ips(ips: &[IpAddr]) -> (r: Self)
        ensures
            r.has_v4() == (exists|i: int| 0 <= i < ips@.len() && ips@[i] is V4),
            r.has_v6() == (exists|i: int| 0 <= i < ips@.len() && ips@[i] is V6),
    {
        let mut v4 = false;
        let mut v6 = false;
        let mut i: usize = 0;
        while i < ips.len()
            invariant
                i <= ips@.len(),
                v4 == (exists|j: int| 0 <= j < i && ips@[j] is V4),
                v6 == (exists|j: int| 0 <= j < i && ips@[j] is V6),
            decreases ips@.len() - i,
        {
            if ips[i].is_ipv4() {
                assert(ips@[i as int] is V4);
                v4 = true;
            } else {
                assert(ips@[i as int] is V6);
                v6 = true;
            }
            i += 1;
        }
        QueryFamilies::make(v4, v6)
    }

    /// Whether every family of `family` is in this set.
    pub fn contains(self, family: Self) -> (b: bool)
        ensures
            b == self.includes(family),
    {
        (!family.v4() || self.v4()) && (!family.v6() || self.v6())
    }

    /// The families of either set.
    pub fn union(self, other: Self) -> (r: Self)
        ensures
            r == Self::of(self.has_v4() || other.has_v4(), self.has_v6() || other.has_v6()),
    {
        QueryFamilies::make(self.v4() || other.v4(), self.v6() || other.v6())
    }

    /// The families of this set that are not in `other`.
    pub fn minus(self, other: Self) -> (r: Self)
        ensures
            r == Self::of(self.has_v4() && !other.has_v4(), self.has_v6() && !other.has_v6()),
    {
        QueryFamilies::make(self.v4() && !other.v4(), self.v6() && !other.v6())
    }

    /// Whether the set holds no family.
    pub fn is_empty(self) -> (b: bool)
        ensures
            b == (self is NONE),
    {
        !self.v4() && !self.v6()
    }

    /// Whether the family of `ip` is in the set.
    pub fn contains_ip(self, ip: IpAddr) -> (b: bool)
        ensures
            b == self.includes(family_of(ip)),
    {
        if ip.is_ipv4() {
            self.v4()
        } else {
            self.v6()
        }
    }

    /// The family that a single-family set lacks: IPv6 for IPv4, and IPv4 for
    /// every other set.
    pub fn other(self) -> (r: Self)
        ensures
            r == (if self is IPV4 { QueryFamilies::IPV6 } else { QueryFamilies::IPV4 }),
    {
        match self {
            QueryFamilies::IPV4 => QueryFamilies::IPV6,
            _ => QueryFamilies::IPV4,
        }
    }
}

/// Taking a set out of its union with another leaves what only the other held.
pub proof fn law_union_minus(a: QueryFamilies, b: QueryFamilies)
    ensures
        ({
            let u = QueryFamilies::of(a.has_v4() || b.has_v4(), a.has_v6() || b.has_v6());
            &&& u.includes(a)
            &&& u.includes(b)
            &&& QueryFamilies::of(u.has_v4() && !b.has_v4(), u.has_v6() && !b.has_v6())
                == QueryFamilies::of(a.has_v4() && !b.has_v4(), a.has_v6() && !b.has_v6())
        }),
{
}

} // verus!
