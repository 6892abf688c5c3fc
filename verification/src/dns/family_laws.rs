//! What holds of every set of address families.
use crate::dns::families::QueryFamilies;
use crate::net::IpAddr;
use vstd::prelude::*;

verus! {

/// The union of two sets holds what one of them holds, and what is left of one
/// without the other is what only the first holds.
pub proof fn law_sets(
    a: QueryFamilies,
    b: QueryFamilies,
    ip: IpAddr,
    both: QueryFamilies,
    left: QueryFamilies,
    in_a: bool,
    in_b: bool,
    in_both: bool,
    in_left: bool,
)
    requires
        call_ensures(QueryFamilies::union, (a, b), both),
        call_ensures(QueryFamilies::minus, (a, b), left),
        call_ensures(QueryFamilies::contains_ip, (a, ip), in_a),
        call_ensures(QueryFamilies::contains_ip, (b, ip), in_b),
        call_ensures(QueryFamilies::contains_ip, (both, ip), in_both),
        call_ensures(QueryFamilies::contains_ip, (left, ip), in_left),
    ensures
        in_both <==> in_a || in_b,
        in_left <==> in_a && !in_b,
{
}

/// Each family holds its own addresses: IPv4 those, IPv6 those, both all, and
/// none not one.
pub proof fn law_members(ip: IpAddr, four: bool, six: bool, all: bool, none: bool)
    requires
        call_ensures(QueryFamilies::contains_ip, (QueryFamilies::IPV4, ip), four),
        call_ensures(QueryFamilies::contains_ip, (QueryFamilies::IPV6, ip), six),
        call_ensures(QueryFamilies::contains_ip, (QueryFamilies::BOTH, ip), all),
        call_ensures(QueryFamilies::contains_ip, (QueryFamilies::NONE, ip), none),
    ensures
        four <==> ip is V4,
        six <==> ip is V6,
        all,
        !none,
{
}

/// One set contains another when it holds every address that the other holds.
pub proof fn law_contains(a: QueryFamilies, b: QueryFamilies, inside: bool, empty: bool)
    requires
        call_ensures(QueryFamilies::contains, (a, b), inside),
        call_ensures(QueryFamilies::is_empty, (a,), empty),
    ensures
        inside <==> (b is IPV4 || b is BOTH ==> a is IPV4 || a is BOTH) && (b is IPV6 || b is BOTH
            ==> a is IPV6 || a is BOTH),
        empty <==> a is NONE,
{
}

/// A record of type 1 asks for IPv4, one of type 28 for IPv6, any other for no
/// address.
pub proof fn law_record_type(t: u16, out: QueryFamilies)
    requires
        call_ensures(QueryFamilies::from_record_type, (t,), out),
    ensures
        out is IPV4 <==> t == 1,
        out is IPV6 <==> t == 28,
        t != 1 && t != 28 ==> out is NONE,
{
}

/// The families of some addresses hold an address exactly when one of them is
/// of its kind.
pub proof fn law_families_of_addresses(
    ips: &[IpAddr],
    ip: IpAddr,
    out: QueryFamilies,
    held: bool,
)
    requires
        call_ensures(QueryFamilies::from_ips, (ips,), out),
        call_ensures(QueryFamilies::contains_ip, (out, ip), held),
    ensures
        held <==> exists|i: int|
            0 <= i < ips@.len() && ((#[trigger] ips@[i]) is V4 <==> ip is V4),
{
    if ip is V4 {
        if held {
            let i = choose|i: int| 0 <= i < ips@.len() && ips@[i] is V4;
            assert(ips@[i] is V4 <==> ip is V4);
        }
    } else {
        if held {
            let i = choose|i: int| 0 <= i < ips@.len() && ips@[i] is V6;
            assert(ips@[i] is V4 <==> ip is V4);
        }
        if exists|i: int| 0 <= i < ips@.len() && ((#[trigger] ips@[i]) is V4 <==> ip is V4) {
            let i = choose|i: int| 0 <= i < ips@.len() && ((#[trigger] ips@[i]) is V4 <==> ip is V4);
            assert(ips@[i] is V6);
        }
    }
}

} // verus!
