//! Choosing the USB interface that carries a GIP controller's reports.

use vstd::prelude::*;

verus! {

/// What the interface search reads of one endpoint descriptor.
#[derive(Clone, Copy, Debug, PartialEq, Eq)]
pub struct EndpointInfo {
    /// The endpoint address (`bEndpointAddress`).
    pub address: u8,
    /// The endpoint's transfer type is interrupt.
    pub is_interrupt: bool,
    /// The endpoint's direction is device-to-host (IN).
    pub is_in: bool,
}

/// What the interface search reads of one interface (alternate setting)
/// descriptor: its number and its endpoints, in descriptor order.
#[derive(Clone, Debug)]
pub struct InterfaceInfo {
    pub interface_number: u8,
    pub endpoints: Vec<EndpointInfo>,
}

impl View for InterfaceInfo {
    type V = (u8, Seq<EndpointInfo>);

    open spec fn view(&self) -> (u8, Seq<EndpointInfo>) {
        (self.interface_number, self.endpoints@)
    }
}

/// The address of the first interrupt endpoint at or after `i` in `eps`
/// with direction IN (`want_in`) or OUT.
pub open spec fn first_interrupt(eps: Seq<EndpointInfo>, want_in: bool, i: int) -> Option<u8>
    decreases eps.len() - i,
{
    if i < 0 || i >= eps.len() {
        None
    } else if eps[i].is_interrupt && eps[i].is_in == want_in {
        Some(eps[i].address)
    } else {
        first_interrupt(eps, want_in, i + 1)
    }
}

/// `(interface, IN address, OUT address)` of an interface that has both an
/// interrupt IN and an interrupt OUT endpoint (the first of each).
pub open spec fn interrupt_pair(iface: (u8, Seq<EndpointInfo>)) -> Option<(u8, u8, u8)> {
    match (first_interrupt(iface.1, true, 0), first_interrupt(iface.1, false, 0)) {
        (Some(i), Some(o)) => Some((iface.0, i, o)),
        _ => None,
    }
}

/// The first interface at or after `k` that has an interrupt pair.
pub open spec fn first_interrupt_interface(ifaces: Seq<(u8, Seq<EndpointInfo>)>, k: int) -> Option<
    (u8, u8, u8),
>
    decreases ifaces.len() - k,
{
    if k < 0 || k >= ifaces.len() {
        None
    } else if interrupt_pair(ifaces[k]) is Some {
        interrupt_pair(ifaces[k])
    } else {
        first_interrupt_interface(ifaces, k + 1)
    }
}

fn find_first_interrupt(eps: &Vec<EndpointInfo>, want_in: bool) -> (r: Option<u8>)
    ensures
        r == first_interrupt(eps@, want_in, 0),
{
    let n = eps.len();
    let mut i: usize = 0;
    while i < n
        invariant
            n == eps@.len(),
            i <= n,
            first_interrupt(eps@, want_in, 0) == first_interrupt(eps@, want_in, i as int),
        decreases n - i,
    {
        let ep = eps[i];
        if ep.is_interrupt && ep.is_in == want_in {
            return Some(ep.address);
        }
        i = i + 1;
    }
    None
}

/// Finds, over all interface descriptors in order, the first interface with
/// both an interrupt IN and an interrupt OUT endpoint, and returns its
/// number with the first such IN and OUT endpoint addresses.
pub fn select_interrupt_interface(ifaces: &Vec<InterfaceInfo>) -> (r: Option<(u8, u8, u8)>)
    ensures
        r == first_interrupt_interface(ifaces@.map_values(|f: InterfaceInfo| f@), 0),
{
    let ghost vs = ifaces@.map_values(|f: InterfaceInfo| f@);
    let n = ifaces.len();
    let mut k: usize = 0;
    while k < n
        invariant
            n == ifaces@.len(),
            vs == ifaces@.map_values(|f: InterfaceInfo| f@),
            k <= n,
            first_interrupt_interface(vs, 0) == first_interrupt_interface(vs, k as int),
        decreases n - k,
    {
        let iface = &ifaces[k];
        assert(vs[k as int] == iface@);
        let ep_in = find_first_interrupt(&iface.endpoints, true);
        let ep_out = find_first_interrupt(&iface.endpoints, false);
        if let (Some(in_ep), Some(out_ep)) = (ep_in, ep_out) {
            return Some((iface.interface_number, in_ep, out_ep));
        }
        k = k + 1;
    }
    None
}


/// The interrupt endpoint at `address`, IN when `is_in`, else OUT.
pub open spec fn interrupt_endpoint(address: u8, is_in: bool) -> EndpointInfo {
    EndpointInfo { address, is_interrupt: true, is_in }
}

proof fn lemma_first_interrupt(eps: Seq<EndpointInfo>, want_in: bool, i: int)
    ensures
        first_interrupt(eps, want_in, i) matches Some(a) ==> exists|j: int|
            0 <= j < eps.len() && #[trigger] eps[j] == interrupt_endpoint(a, want_in),
    decreases eps.len() - i,
{
    if 0 <= i < eps.len() {
        if eps[i].is_interrupt && eps[i].is_in == want_in {
            assert(eps[i] == interrupt_endpoint(eps[i].address, want_in));
        } else {
            lemma_first_interrupt(eps, want_in, i + 1);
        }
    }
}

proof fn lemma_first_interrupt_interface(ifaces: Seq<(u8, Seq<EndpointInfo>)>, k: int)
    ensures
        first_interrupt_interface(ifaces, k) matches Some(r) ==> exists|j: int|
            0 <= j < ifaces.len() && interrupt_pair(#[trigger] ifaces[j]) == Some(r),
    decreases ifaces.len() - k,
{
    if 0 <= k < ifaces.len() && interrupt_pair(ifaces[k]) is None {
        lemma_first_interrupt_interface(ifaces, k + 1);
    }
}

/// A chosen interface really has the chosen endpoints: an interrupt IN
/// endpoint at the IN address and an interrupt OUT endpoint at the OUT
/// address; and no interface is chosen when none has both.
pub proof fn law_selected_interface_has_pair(ifaces: Seq<(u8, Seq<EndpointInfo>)>)
    ensures
        first_interrupt_interface(ifaces, 0) matches Some((n, i, o)) ==> exists|j: int|
            0 <= j < ifaces.len() && (#[trigger] ifaces[j]).0 == n && ifaces[j].1.contains(
                interrupt_endpoint(i, true),
            ) && ifaces[j].1.contains(interrupt_endpoint(o, false)),
        (forall|j: int| 0 <= j < ifaces.len() ==> interrupt_pair(#[trigger] ifaces[j]) is None)
            ==> first_interrupt_interface(ifaces, 0) is None,
{
    lemma_first_interrupt_interface(ifaces, 0);
    if let Some((n, i, o)) = first_interrupt_interface(ifaces, 0) {
        let j = choose|j: int| 0 <= j < ifaces.len() && interrupt_pair(#[trigger] ifaces[j]) == Some((n, i, o));
        lemma_first_interrupt(ifaces[j].1, true, 0);
        lemma_first_interrupt(ifaces[j].1, false, 0);
        assert(ifaces[j].0 == n);
    }
    if forall|j: int| 0 <= j < ifaces.len() ==> interrupt_pair(#[trigger] ifaces[j]) is None {
        lemma_none_without_pair(ifaces, 0);
    }
}

proof fn lemma_none_without_pair(ifaces: Seq<(u8, Seq<EndpointInfo>)>, k: int)
    requires
        0 <= k,
        forall|j: int| 0 <= j < ifaces.len() ==> interrupt_pair(#[trigger] ifaces[j]) is None,
    ensures
        first_interrupt_interface(ifaces, k) is None,
    decreases ifaces.len() - k,
{
    if k < ifaces.len() {
        lemma_none_without_pair(ifaces, k + 1);
    }
}


/// `e` is an interrupt endpoint with direction IN (`want_in`) or OUT.
pub open spec fn is_interrupt_dir(e: EndpointInfo, want_in: bool) -> bool {
    e.is_interrupt && e.is_in == want_in
}

/// `eps` has an interrupt IN and an interrupt OUT endpoint.
pub open spec fn has_interrupt_pair(eps: Seq<EndpointInfo>) -> bool {
    &&& exists|p: int| 0 <= p < eps.len() && is_interrupt_dir(#[trigger] eps[p], true)
    &&& exists|p: int| 0 <= p < eps.len() && is_interrupt_dir(#[trigger] eps[p], false)
}

/// `a` is the address of the first interrupt endpoint of `eps` with
/// direction IN (`want_in`) or OUT.
pub open spec fn first_address_is(eps: Seq<EndpointInfo>, want_in: bool, a: u8) -> bool {
    exists|p: int|
        0 <= p < eps.len() && is_interrupt_dir(#[trigger] eps[p], want_in) && eps[p].address == a
            && forall|q: int| 0 <= q < p ==> !is_interrupt_dir(#[trigger] eps[q], want_in)
}

proof fn lemma_first_interrupt_found(eps: Seq<EndpointInfo>, want_in: bool, i: int)
    requires
        0 <= i,
    ensures
        first_interrupt(eps, want_in, i) is None <==> forall|p: int|
            i <= p < eps.len() ==> !is_interrupt_dir(#[trigger] eps[p], want_in),
        first_interrupt(eps, want_in, i) matches Some(a) ==> exists|p: int|
            i <= p < eps.len() && is_interrupt_dir(#[trigger] eps[p], want_in) && eps[p].address == a
                && forall|q: int| i <= q < p ==> !is_interrupt_dir(#[trigger] eps[q], want_in),
    decreases eps.len() - i,
{
    if i < eps.len() {
        lemma_first_interrupt_found(eps, want_in, i + 1);
        if !is_interrupt_dir(eps[i], want_in) {
            if let Some(a) = first_interrupt(eps, want_in, i) {
                let p = choose|p: int|
                    i + 1 <= p < eps.len() && is_interrupt_dir(#[trigger] eps[p], want_in)
                        && eps[p].address == a && forall|q: int|
                        i + 1 <= q < p ==> !is_interrupt_dir(#[trigger] eps[q], want_in);
                assert forall|q: int| i <= q < p implies !is_interrupt_dir(#[trigger] eps[q], want_in) by {
                    if q == i {
                    }
                }
            }
        } else {
            assert(forall|q: int| i <= q < i ==> !is_interrupt_dir(#[trigger] eps[q], want_in));
        }
    }
}

proof fn lemma_pair_found(iface: (u8, Seq<EndpointInfo>))
    ensures
        interrupt_pair(iface) is Some <==> has_interrupt_pair(iface.1),
        interrupt_pair(iface) matches Some((n, i, o)) ==> n == iface.0 && first_address_is(
            iface.1,
            true,
            i,
        ) && first_address_is(iface.1, false, o),
{
    lemma_first_interrupt_found(iface.1, true, 0);
    lemma_first_interrupt_found(iface.1, false, 0);
}

proof fn lemma_first_interface_found(ifaces: Seq<(u8, Seq<EndpointInfo>)>, k: int)
    requires
        0 <= k,
    ensures
        first_interrupt_interface(ifaces, k) is None <==> forall|j: int|
            k <= j < ifaces.len() ==> !has_interrupt_pair(#[trigger] ifaces[j].1),
        first_interrupt_interface(ifaces, k) matches Some(t) ==> exists|j: int|
            k <= j < ifaces.len() && interrupt_pair(#[trigger] ifaces[j]) == Some(t)
                && has_interrupt_pair(ifaces[j].1) && forall|q: int|
                k <= q < j ==> !has_interrupt_pair(#[trigger] ifaces[q].1),
    decreases ifaces.len() - k,
{
    if k < ifaces.len() {
        lemma_pair_found(ifaces[k]);
        lemma_first_interface_found(ifaces, k + 1);
        if interrupt_pair(ifaces[k]) is None {
            if let Some(t) = first_interrupt_interface(ifaces, k) {
                let j = choose|j: int|
                    k + 1 <= j < ifaces.len() && interrupt_pair(#[trigger] ifaces[j]) == Some(t)
                        && has_interrupt_pair(ifaces[j].1) && forall|q: int|
                        k + 1 <= q < j ==> !has_interrupt_pair(#[trigger] ifaces[q].1);
                assert forall|q: int| k <= q < j implies !has_interrupt_pair(#[trigger] ifaces[q].1) by {
                    if q == k {
                    }
                }
            }
        } else {
            assert(forall|q: int| k <= q < k ==> !has_interrupt_pair(#[trigger] ifaces[q].1));
        }
    }
}

/// An interface is chosen exactly when some interface has both an interrupt
/// IN and an interrupt OUT endpoint, and then it is the first such
/// interface: the result is its number with the address of its first
/// interrupt IN endpoint and of its first interrupt OUT endpoint, and no
/// earlier interface has such a pair.
pub proof fn law_first_interface_with_pair_chosen(ifaces: Seq<(u8, Seq<EndpointInfo>)>)
    ensures
        (first_interrupt_interface(ifaces, 0) is Some) <==> exists|j: int|
            0 <= j < ifaces.len() && has_interrupt_pair(#[trigger] ifaces[j].1),
        first_interrupt_interface(ifaces, 0) matches Some((n, i, o)) ==> exists|k: int|
            0 <= k < ifaces.len() && (#[trigger] ifaces[k]).0 == n && has_interrupt_pair(ifaces[k].1)
                && first_address_is(ifaces[k].1, true, i) && first_address_is(ifaces[k].1, false, o)
                && forall|j: int| 0 <= j < k ==> !has_interrupt_pair(#[trigger] ifaces[j].1),
{
    lemma_first_interface_found(ifaces, 0);
    if let Some((n, i, o)) = first_interrupt_interface(ifaces, 0) {
        let k = choose|j: int|
            0 <= j < ifaces.len() && interrupt_pair(#[trigger] ifaces[j]) == Some((n, i, o))
                && has_interrupt_pair(ifaces[j].1) && forall|q: int|
                0 <= q < j ==> !has_interrupt_pair(#[trigger] ifaces[q].1);
        lemma_pair_found(ifaces[k]);
    } else {
        assert(!exists|j: int| 0 <= j < ifaces.len() && has_interrupt_pair(#[trigger] ifaces[j].1));
    }
}

} // verus!
