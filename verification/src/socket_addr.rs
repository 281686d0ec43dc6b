//! Socket addresses: an IP address and a port, and for IPv6 the scope of a
//! link-local address. In text an IPv4 socket address is `ip:port`; an IPv6
//! socket address is `[ip]:port`, or `[ip%scope]:port` where the scope is
//! not zero.

use crate::ip::{ip_text, ip_value, lemma_ip_text_value, push_ip, read_ip, IpAddr, IpView};
use crate::ipv4::{ipv4_text, ipv4_value, lemma_ipv4_text_value, lemma_ipv4_text_without, read_ipv4};
use crate::ipv6::{ipv6_text, ipv6_value, lemma_ipv6_text_value, lemma_ipv6_text_without, read_ipv6};
use crate::numeral::{
    bounded_value, lemma_numeral, lemma_numeral_without, numeral, push_number, read_number,
};
use crate::text::{chars_of, find_from, index_of, lemma_concat_without, lemma_index_of};
use vstd::prelude::*;
use vstd::string::StringExecFns;

verus! {

/// Why a text was refused as an address.
#[derive(Debug, Clone, Copy, PartialEq, Eq, Structural)]
pub enum InvalidAddress {
    /// The text is neither an IPv4 nor an IPv6 address.
    Ip,
    /// The text is no IP address followed by a port.
    SocketAddr,
}

impl InvalidAddress {
    /// What to tell the caller.
    pub fn message(&self) -> (m: &'static str)
        ensures
            m@ == match *self {
                InvalidAddress::Ip => "Invalid IP address"@,
                InvalidAddress::SocketAddr => "Invalid socket address format"@,
            },
    {
        match self {
            InvalidAddress::Ip => "Invalid IP address",
            InvalidAddress::SocketAddr => "Invalid socket address format",
        }
    }
}

/// One network endpoint.
#[derive(Debug, Clone, Copy, PartialEq, Eq)]
pub struct SocketAddr {
    ip: IpAddr,
    port: u16,
    scope_id: u32,
}

/// A socket address as plain values. The scope belongs to IPv6 addresses;
/// with an IPv4 address it is zero.
pub struct SocketAddrView {
    pub ip: IpView,
    pub port: u16,
    pub scope_id: u32,
}

impl SocketAddrView {
    /// The IP address is well formed, and an IPv4 address has no scope.
    pub open spec fn wf(self) -> bool {
        self.ip.wf() && (self.ip is V4 ==> self.scope_id == 0)
    }

    /// The address with another IP address in place. The scope stays where
    /// both the old and the new address are IPv6 addresses.
    pub open spec fn with_ip(self, ip: IpView) -> SocketAddrView {
        SocketAddrView {
            ip,
            port: self.port,
            scope_id: if self.ip is V6 && ip is V6 {
                self.scope_id
            } else {
                0
            },
        }
    }

    /// The address with another port in place.
    pub open spec fn with_port(self, port: u16) -> SocketAddrView {
        SocketAddrView { ip: self.ip, port, scope_id: self.scope_id }
    }
}

impl View for SocketAddr {
    type V = SocketAddrView;

    closed spec fn view(&self) -> SocketAddrView {
        SocketAddrView {
            ip: self.ip@,
            port: self.port,
            scope_id: if self.ip is V6 {
                self.scope_id
            } else {
                0
            },
        }
    }
}

/// The port that `s` writes: a decimal numeral of at most 65535.
pub open spec fn port_value(s: Seq<char>) -> Option<u16> {
    match bounded_value(s, 10, 0xffff) {
        Some(v) => Some(v as u16),
        None => None,
    }
}

/// The scope that `s` writes: a decimal numeral that fits in 32 bits.
pub open spec fn scope_value(s: Seq<char>) -> Option<u32> {
    match bounded_value(s, 10, 0xffff_ffff) {
        Some(v) => Some(v as u32),
        None => None,
    }
}

/// What stands between the brackets: an IPv6 address, and after a `%` its
/// scope, which is zero if there is no `%`.
#[verifier::opaque]
pub open spec fn scoped_value(s: Seq<char>) -> Option<(Seq<u16>, u32)> {
    let p = index_of(s, '%');
    if 0 <= p < s.len() {
        match (ipv6_value(s.take(p)), scope_value(s.skip(p + 1))) {
            (Some(groups), Some(id)) => Some((groups, id)),
            _ => None,
        }
    } else {
        match ipv6_value(s) {
            Some(groups) => Some((groups, 0u32)),
            None => None,
        }
    }
}

/// The socket address that `s` writes, if it writes one: an IPv4 address, a
/// colon and a port; or an IPv6 address in brackets, with or without a
/// scope, a colon and a port.
#[verifier::opaque]
pub open spec fn socket_addr_value(s: Seq<char>) -> Option<SocketAddrView> {
    if s.len() > 0 && s[0] == '[' {
        let j = index_of(s, ']');
        if 0 <= j && j + 1 < s.len() && s[j + 1] == ':' {
            match (scoped_value(s.subrange(1, j)), port_value(s.skip(j + 2))) {
                (Some((groups, id)), Some(port)) => Some(
                    SocketAddrView { ip: IpView::V6(groups), port, scope_id: id },
                ),
                _ => None,
            }
        } else {
            None
        }
    } else {
        let i = index_of(s, ':');
        if 0 <= i < s.len() {
            match (ipv4_value(s.take(i)), port_value(s.skip(i + 1))) {
                (Some(octets), Some(port)) => Some(
                    SocketAddrView { ip: IpView::V4(octets), port, scope_id: 0 },
                ),
                _ => None,
            }
        } else {
            None
        }
    }
}

/// The scope as it is written behind an IPv6 address: nothing for zero.
pub open spec fn scope_text(id: u32) -> Seq<char> {
    if id == 0 {
        Seq::empty()
    } else {
        seq!['%'] + numeral(id as nat, 10)
    }
}

/// The text of a socket address.
pub open spec fn socket_addr_text(a: SocketAddrView) -> Seq<char> {
    match a.ip {
        IpView::V4(octets) => ipv4_text(octets) + seq![':'] + numeral(a.port as nat, 10),
        IpView::V6(groups) => seq!['['] + ipv6_text(groups) + scope_text(a.scope_id) + seq![
            ']',
            ':',
        ] + numeral(a.port as nat, 10),
    }
}

/// An IPv4 address, a colon and a port read back as that address and port.
proof fn lemma_v4_socket_text_value(octets: Seq<u8>, port: u16)
    requires
        octets.len() == 4,
    ensures
        socket_addr_value(ipv4_text(octets) + seq![':'] + numeral(port as nat, 10)) == Some(
            SocketAddrView { ip: IpView::V4(octets), port, scope_id: 0 },
        ),
{
    reveal(socket_addr_value);
    let v4 = ipv4_text(octets);
    let p = numeral(port as nat, 10);
    let s = v4 + seq![':'] + p;
    lemma_ipv4_text_value(octets);
    lemma_ipv4_text_without(octets, '[');
    lemma_numeral(port as nat, 10);
    assert(s[0] == v4[0]);
    assert(v4[0] != '[') by {
        if v4[0] == '[' {
            assert(v4.contains('['));
        }
    }
    let i = v4.len() as int;
    assert forall|k: int| 0 <= k < i implies s[k] != ':' by {
        assert(s[k] == v4[k]);
        if v4[k] == ':' {
            assert(v4.contains(':'));
        }
    }
    lemma_index_of(s, ':', i);
    assert(s.take(i) =~= v4);
    assert(s.skip(i + 1) =~= p);
}

/// An IPv6 address and its scope, as they are written between brackets,
/// read back as that address and scope, and hold no closing bracket.
proof fn lemma_scoped_text_value(groups: Seq<u16>, id: u32)
    requires
        groups.len() == 8,
    ensures
        scoped_value(ipv6_text(groups) + scope_text(id)) == Some((groups, id)),
        !(ipv6_text(groups) + scope_text(id)).contains(']'),
{
    reveal(scoped_value);
    let t6 = ipv6_text(groups);
    let sc = scope_text(id);
    let s = t6 + sc;
    lemma_ipv6_text_value(groups);
    lemma_ipv6_text_without(groups, '%');
    lemma_ipv6_text_without(groups, ']');
    lemma_numeral(id as nat, 10);
    lemma_numeral_without(id as nat, 10, ']');
    let i = t6.len() as int;
    assert forall|k: int| 0 <= k < i implies s[k] != '%' by {
        assert(s[k] == t6[k]);
        if t6[k] == '%' {
            assert(t6.contains('%'));
        }
    }
    if id == 0 {
        assert(s =~= t6);
        lemma_index_of(s, '%', i);
    } else {
        assert(s[i] == '%');
        lemma_index_of(s, '%', i);
        assert(s.take(i) =~= t6);
        assert(s.skip(i + 1) =~= numeral(id as nat, 10));
        let mark = seq!['%'];
        assert(!mark.contains(']'));
        lemma_concat_without(mark, numeral(id as nat, 10), ']');
    }
    lemma_concat_without(t6, sc, ']');
}

/// In a text that starts with a bracketed part without a closing bracket
/// in it, followed by a colon, the first closing bracket ends that part.
proof fn lemma_bracketed(inside: Seq<char>, rest: Seq<char>)
    requires
        !inside.contains(']'),
    ensures
        ({
            let s = seq!['['] + inside + seq![']', ':'] + rest;
            let j = index_of(s, ']');
            &&& s[0] == '['
            &&& j == 1 + inside.len()
            &&& j + 1 < s.len()
            &&& s[j + 1] == ':'
            &&& s.subrange(1, j) == inside
            &&& s.skip(j + 2) == rest
        }),
{
    let s = seq!['['] + inside + seq![']', ':'] + rest;
    let j = 1 + inside.len() as int;
    assert forall|k: int| 0 <= k < j implies s[k] != ']' by {
        if k >= 1 {
            assert(s[k] == inside[k - 1]);
            if inside[k - 1] == ']' {
                assert(inside.contains(']'));
            }
        }
    }
    assert(s[j] == ']');
    assert(s[j + 1] == ':');
    lemma_index_of(s, ']', j);
    assert(s.subrange(1, j) =~= inside);
    assert(s.skip(j + 2) =~= rest);
}

/// An IPv6 address in brackets, with its scope, a colon and a port read
/// back as that address, scope and port.
proof fn lemma_v6_socket_text_value(groups: Seq<u16>, id: u32, port: u16)
    requires
        groups.len() == 8,
    ensures
        socket_addr_value(
            seq!['['] + ipv6_text(groups) + scope_text(id) + seq![']', ':'] + numeral(
                port as nat,
                10,
            ),
        ) == Some(SocketAddrView { ip: IpView::V6(groups), port, scope_id: id }),
{
    reveal(socket_addr_value);
    let inside = ipv6_text(groups) + scope_text(id);
    let p = numeral(port as nat, 10);
    let s = seq!['['] + inside + seq![']', ':'] + p;
    assert(seq!['['] + ipv6_text(groups) + scope_text(id) + seq![']', ':'] + p =~= s);
    lemma_scoped_text_value(groups, id);
    lemma_bracketed(inside, p);
    assert(port_value(p) == Some(port)) by {
        lemma_numeral(port as nat, 10);
    }
}

/// The text of a socket address reads back as the address.
pub proof fn lemma_socket_addr_text_value(a: SocketAddrView)
    requires
        a.wf(),
    ensures
        socket_addr_value(socket_addr_text(a)) == Some(a),
{
    match a.ip {
        IpView::V4(octets) => {
            lemma_v4_socket_text_value(octets, a.port);
        },
        IpView::V6(groups) => {
            lemma_v6_socket_text_value(groups, a.scope_id, a.port);
        },
    }
}

impl SocketAddr {
    /// The address with the IP address that `ip` writes and with `port`.
    /// A text that writes no IP address is refused.
    pub fn new(ip: &str, port: u16) -> (r: Result<SocketAddr, InvalidAddress>)
        ensures
            match ip_value(ip@) {
                Some(v) => r matches Ok(a) && a@ == (SocketAddrView { ip: v, port, scope_id: 0 }),
                None => r == Err::<SocketAddr, InvalidAddress>(InvalidAddress::Ip),
            },
    {
        let chars = chars_of(ip);
        match read_ip(chars.as_slice()) {
            Some(ip) => Ok(SocketAddr { ip, port, scope_id: 0 }),
            None => Err(InvalidAddress::Ip),
        }
    }

    /// The address made of its parts. A scope given with an IPv4 address is
    /// dropped.
    pub fn from_parts(ip: IpAddr, port: u16, scope_id: u32) -> (a: SocketAddr)
        ensures
            a@ == (SocketAddrView {
                ip: ip@,
                port,
                scope_id: if ip is V6 {
                    scope_id
                } else {
                    0
                },
            }),
    {
        match ip {
            IpAddr::V4(_) => SocketAddr { ip, port, scope_id: 0 },
            IpAddr::V6(_) => SocketAddr { ip, port, scope_id },
        }
    }

    /// The IP address.
    pub fn ip_addr(&self) -> (ip: IpAddr)
        ensures
            ip@ == self@.ip,
    {
        self.ip
    }

    /// The scope of an IPv6 address; zero for an IPv4 address.
    pub fn scope_id(&self) -> (id: u32)
        ensures
            id == self@.scope_id,
    {
        match self.ip {
            IpAddr::V4(_) => 0,
            IpAddr::V6(_) => self.scope_id,
        }
    }

    /// The IP address as text, in its normal form.
    pub fn ip(&self) -> (r: String)
        ensures
            r@ == ip_text(self@.ip),
    {
        let mut out = String::new();
        push_ip(&mut out, &self.ip);
        assert(Seq::<char>::empty() + ip_text(self.ip@) =~= ip_text(self.ip@));
        out
    }

    /// Puts the IP address that `ip` writes in place of the present one.
    /// A text that writes no IP address is refused, and nothing changes.
    pub fn set_ip(&mut self, ip: &str) -> (r: Result<(), InvalidAddress>)
        ensures
            match ip_value(ip@) {
                Some(v) => r == Ok::<(), InvalidAddress>(()) && final(self)@ == old(self)@.with_ip(
                    v,
                ),
                None => r == Err::<(), InvalidAddress>(InvalidAddress::Ip) && *final(self) == *old(
                    self,
                ),
            },
    {
        let chars = chars_of(ip);
        match read_ip(chars.as_slice()) {
            Some(new_ip) => {
                let scope_id: u32 = match (self.ip, new_ip) {
                    (IpAddr::V6(_), IpAddr::V6(_)) => self.scope_id,
                    _ => 0,
                };
                self.ip = new_ip;
                self.scope_id = scope_id;
                Ok(())
            },
            None => Err(InvalidAddress::Ip),
        }
    }

    /// The port.
    pub fn port(&self) -> (port: u16)
        ensures
            port == self@.port,
    {
        self.port
    }

    /// Puts `port` in place of the present port.
    pub fn set_port(&mut self, port: u16)
        ensures
            final(self)@ == old(self)@.with_port(port),
    {
        self.port = port;
    }

    /// The address as text.
    pub fn to_string(&self) -> (r: String)
        ensures
            r@ == socket_addr_text(self@),
    {
        let mut out = String::new();
        match &self.ip {
            IpAddr::V4(_) => {
                push_ip(&mut out, &self.ip);
                out.append(":");
                push_number(&mut out, self.port as u64, 10);
                proof {
                    reveal_strlit(":");
                    assert(out@ =~= socket_addr_text(self@));
                }
            },
            IpAddr::V6(_) => {
                out.append("[");
                push_ip(&mut out, &self.ip);
                if self.scope_id != 0 {
                    out.append("%");
                    push_number(&mut out, self.scope_id as u64, 10);
                }
                out.append("]:");
                push_number(&mut out, self.port as u64, 10);
                proof {
                    reveal_strlit("[");
                    reveal_strlit("%");
                    reveal_strlit("]:");
                    assert("]:"@ =~= seq![']', ':']);
                    assert(out@ =~= socket_addr_text(self@));
                }
            },
        }
        out
    }

    /// The address that `addr` writes. A text that writes no socket address
    /// is refused.
    pub fn from_string(addr: &str) -> (r: Result<SocketAddr, InvalidAddress>)
        ensures
            match socket_addr_value(addr@) {
                Some(v) => r matches Ok(a) && a@ == v,
                None => r == Err::<SocketAddr, InvalidAddress>(InvalidAddress::SocketAddr),
            },
    {
        let chars = chars_of(addr);
        match read_socket_addr(chars.as_slice()) {
            Some(a) => Ok(a),
            None => Err(InvalidAddress::SocketAddr),
        }
    }

    /// Every address is well formed.
    pub proof fn lemma_wf(self)
        ensures
            self@.wf(),
    {
    }

    /// Writing an address as text and reading the text gives the address
    /// back, part for part: what `from_string` returns for the result of
    /// `to_string` is the address itself.
    pub proof fn lemma_to_string_from_string(self)
        ensures
            socket_addr_value(socket_addr_text(self@)) == Some(self@),
    {
        self.lemma_wf();
        lemma_socket_addr_text_value(self@);
    }

    /// An address made by `new` from a text that writes an IP address holds
    /// that IP address and the port it was given. Its IP address as text,
    /// as `ip` returns it, is the text in normal form: it writes the same
    /// IP address, and a second pass leaves it as it is.
    pub proof fn lemma_new_holds_what_was_given(ip: Seq<char>, port: u16)
        requires
            ip_value(ip) is Some,
        ensures
            ({
                let made = SocketAddrView { ip: ip_value(ip).unwrap(), port, scope_id: 0 };
                let shown = ip_text(made.ip);
                &&& made.wf()
                &&& made.port == port
                &&& ip_value(shown) == ip_value(ip)
                &&& ip_text(ip_value(shown).unwrap()) == shown
            }),
    {
        crate::ip::lemma_ip_value_wf(ip);
        lemma_ip_text_value(ip_value(ip).unwrap());
    }
}

/// The port that `s` writes, if it writes one.
pub fn read_port(s: &[char]) -> (r: Option<u16>)
    ensures
        r == port_value(s@),
{
    match read_number(s, 10, 0xffff) {
        Some(v) => Some(v as u16),
        None => None,
    }
}

/// What stands between the brackets of an IPv6 socket address.
pub fn read_scoped(s: &[char]) -> (r: Option<([u16; 8], u32)>)
    ensures
        r matches Some(pair) ==> scoped_value(s@) == Some((pair.0@, pair.1)),
        r is None ==> scoped_value(s@) is None,
{
    let n: usize = s.len();
    let p: usize = find_from(s, 0, '%');
    proof {
        reveal(scoped_value);
        assert(s@.skip(0) =~= s@);
    }
    if p < n {
        let before = vstd::slice::slice_subrange(s, 0, p);
        let after = vstd::slice::slice_subrange(s, p + 1, n);
        proof {
            assert(before@ =~= s@.take(p as int));
            assert(after@ =~= s@.skip(p + 1));
        }
        match (read_ipv6(before), read_number(after, 10, 0xffff_ffff)) {
            (Some(groups), Some(id)) => Some((groups, id)),
            _ => None,
        }
    } else {
        match read_ipv6(s) {
            Some(groups) => Some((groups, 0)),
            None => None,
        }
    }
}

/// The socket address that `s` writes, if it writes one.
pub fn read_socket_addr(s: &[char]) -> (r: Option<SocketAddr>)
    ensures
        r matches Some(a) ==> socket_addr_value(s@) == Some(a@),
        r is None ==> socket_addr_value(s@) is None,
{
    let n: usize = s.len();
    proof {
        reveal(socket_addr_value);
        assert(s@.skip(0) =~= s@);
    }
    if n > 0 && s[0] == '[' {
        let j: usize = find_from(s, 0, ']');
        if j >= n || n - j < 2 || s[j + 1] != ':' {
            return None;
        }
        let inside = vstd::slice::slice_subrange(s, 1, j);
        let after = vstd::slice::slice_subrange(s, j + 2, n);
        proof {
            assert(after@ =~= s@.skip(j + 2));
        }
        match (read_scoped(inside), read_port(after)) {
            (Some(pair), Some(port)) => Some(
                SocketAddr { ip: IpAddr::V6(pair.0), port, scope_id: pair.1 },
            ),
            _ => None,
        }
    } else {
        let i: usize = find_from(s, 0, ':');
        if i >= n {
            return None;
        }
        let before = vstd::slice::slice_subrange(s, 0, i);
        let after = vstd::slice::slice_subrange(s, i + 1, n);
        proof {
            assert(before@ =~= s@.take(i as int));
            assert(after@ =~= s@.skip(i + 1));
        }
        match (read_ipv4(before), read_port(after)) {
            (Some(octets), Some(port)) => Some(
                SocketAddr { ip: IpAddr::V4(octets), port, scope_id: 0 },
            ),
            _ => None,
        }
    }
}

} // verus!
