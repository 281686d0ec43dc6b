//! IP addresses of either family, and their textual form.

use crate::ipv4::{
    ipv4_text, ipv4_value, lemma_ipv4_text_value, octet_value, push_ipv4, read_ipv4,
};
use crate::ipv6::{
    group_octets, groups_text, ipv6_text, ipv6_value, is_v4_mapped, lemma_groups_text_without,
    lemma_ipv6_text_value, longest_zero_run, push_ipv6, read_ipv6, zero_run,
};
use crate::text::{index_of, lemma_concat_without, lemma_index_of_bounds, lemma_split_whole, split};
use vstd::prelude::*;

verus! {

/// An IP address: four octets, or eight groups of sixteen bits.
#[derive(Debug, Clone, Copy, PartialEq, Eq)]
pub enum IpAddr {
    V4([u8; 4]),
    V6([u16; 8]),
}

/// An IP address as a sequence of its octets or groups.
pub enum IpView {
    V4(Seq<u8>),
    V6(Seq<u16>),
}

impl IpView {
    /// An IPv4 address has four octets, an IPv6 address eight groups.
    pub open spec fn wf(self) -> bool {
        match self {
            IpView::V4(octets) => octets.len() == 4,
            IpView::V6(groups) => groups.len() == 8,
        }
    }
}

impl View for IpAddr {
    type V = IpView;

    open spec fn view(&self) -> IpView {
        match *self {
            IpAddr::V4(octets) => IpView::V4(octets@),
            IpAddr::V6(groups) => IpView::V6(groups@),
        }
    }
}

/// The address that `s` writes, if `s` is an IPv4 address in dotted decimal
/// form or an IPv6 address.
pub open spec fn ip_value(s: Seq<char>) -> Option<IpView> {
    match ipv4_value(s) {
        Some(octets) => Some(IpView::V4(octets)),
        None => match ipv6_value(s) {
            Some(groups) => Some(IpView::V6(groups)),
            None => None,
        },
    }
}

/// The text of an address, in its one normal form.
pub open spec fn ip_text(ip: IpView) -> Seq<char> {
    match ip {
        IpView::V4(octets) => ipv4_text(octets),
        IpView::V6(groups) => ipv6_text(groups),
    }
}

/// What an address literal writes is well formed.
pub proof fn lemma_ip_value_wf(s: Seq<char>)
    requires
        ip_value(s) is Some,
    ensures
        ip_value(s).unwrap().wf(),
{
    if ipv4_value(s) is None {
        lemma_ipv6_value_len(s);
    } else {
        reveal(ipv4_value);
    }
}

/// What an IPv6 literal writes has eight groups.
pub proof fn lemma_ipv6_value_len(s: Seq<char>)
    requires
        ipv6_value(s) is Some,
    ensures
        ipv6_value(s).unwrap().len() == 8,
{
    reveal(ipv6_value);
}

/// The text of an IPv6 address is no IPv4 address.
pub proof fn lemma_ipv6_text_not_ipv4(groups: Seq<u16>)
    requires
        groups.len() == 8,
    ensures
        ipv4_value(ipv6_text(groups)) is None,
{
    reveal(ipv6_text);
    reveal(ipv4_value);
    let s = ipv6_text(groups);
    if is_v4_mapped(groups) {
        let lead = seq![':', ':', 'f', 'f', 'f', 'f', ':'];
        let v4 = ipv4_text(group_octets(groups[6], groups[7]));
        lemma_index_of_bounds(s, '.');
        let i = index_of(s, '.');
        if i < 7 {
            assert(s[i] == lead[i]);
        }
        let parts = split(s, '.');
        assert(parts[0].len() >= 7);
        assert(octet_value(parts[0]) is None);
    } else {
        let start = longest_zero_run(groups, groups.len() as int);
        let len = zero_run(groups, start);
        let head = groups.take(start);
        let tail = groups.skip(start + len);
        lemma_groups_text_without(head, '.');
        lemma_groups_text_without(tail, '.');
        lemma_groups_text_without(groups, '.');
        let colons = seq![':', ':'];
        assert(!colons.contains('.'));
        lemma_concat_without(groups_text(head), colons, '.');
        lemma_concat_without(groups_text(head) + colons, groups_text(tail), '.');
        lemma_split_whole(s, '.');
    }
}

/// The text of an address reads back as the address.
pub proof fn lemma_ip_text_value(ip: IpView)
    requires
        ip.wf(),
    ensures
        ip_value(ip_text(ip)) == Some(ip),
{
    match ip {
        IpView::V4(octets) => {
            lemma_ipv4_text_value(octets);
        },
        IpView::V6(groups) => {
            lemma_ipv6_text_not_ipv4(groups);
            lemma_ipv6_text_value(groups);
        },
    }
}

/// The address that `s` writes, if it writes one.
pub fn read_ip(s: &[char]) -> (r: Option<IpAddr>)
    ensures
        r matches Some(ip) ==> ip_value(s@) == Some(ip@),
        r is None ==> ip_value(s@) is None,
{
    match read_ipv4(s) {
        Some(octets) => Some(IpAddr::V4(octets)),
        None => match read_ipv6(s) {
            Some(groups) => Some(IpAddr::V6(groups)),
            None => None,
        },
    }
}

/// Writes the text of the address at the end of `out`.
pub fn push_ip(out: &mut String, ip: &IpAddr)
    ensures
        final(out)@ == old(out)@ + ip_text(ip@),
{
    match ip {
        IpAddr::V4(octets) => push_ipv4(out, octets),
        IpAddr::V6(groups) => push_ipv6(out, groups),
    }
}

} // verus!
