//! Network addresses as plain values, their text form, and the PROXY
//! protocol (version 1) preamble.
use vstd::prelude::*;

use crate::text::{
    all_ascii,
    ascii,
    ascii_chars,
    ascii_string,
    decimal,
    hex,
    lemma_decimal_ascii,
    lemma_decimal_len,
    lemma_hex_len,
    lemma_hex_ascii,
    lemma_literal_ascii,
    push_ascii,
    push_decimal,
    push_hex,
};

verus! {

/// An IP address: four octets, or eight 16-bit segments.
#[derive(Debug, Clone, Copy, PartialEq, Eq, Hash)]
pub enum IpAddress {
    V4([u8; 4]),
    V6([u16; 8]),
}

/// An IP address with a TCP port.
#[derive(Debug, Clone, Copy, PartialEq, Eq, Hash)]
pub struct Endpoint {
    pub ip: IpAddress,
    pub port: u16,
}

/// Dotted decimal text of four octets.
pub open spec fn v4_text(o: Seq<u8>) -> Seq<u8> {
    decimal(o[0] as nat) + ascii("."@) + decimal(o[1] as nat) + ascii("."@) + decimal(
        o[2] as nat,
    ) + ascii("."@) + decimal(o[3] as nat)
}

/// Hexadecimal segments separated by colons.
pub open spec fn joined_hex(s: Seq<u16>) -> Seq<u8>
    decreases s.len(),
{
    if s.len() == 0 {
        Seq::empty()
    } else if s.len() == 1 {
        hex(s[0] as nat)
    } else {
        joined_hex(s.drop_last()) + ascii(":"@) + hex(s.last() as nat)
    }
}

/// The number of zero segments from position `i` on, up to the first
/// nonzero one.
pub open spec fn zero_run(s: Seq<u16>, i: int) -> nat
    decreases s.len() - i,
{
    if 0 <= i < s.len() && s[i] == 0 {
        1 + zero_run(s, i + 1)
    } else {
        0
    }
}

/// Where the longest run of zero segments at or after `i` starts (the first
/// such run on a tie), and its length.
pub open spec fn longest_zero_run(s: Seq<u16>, i: int) -> (int, nat)
    decreases s.len() - i,
{
    if i < 0 || i >= s.len() {
        (s.len() as int, 0)
    } else {
        let (start, len) = longest_zero_run(s, i + 1);
        if zero_run(s, i) >= len {
            (i, zero_run(s, i))
        } else {
            (start, len)
        }
    }
}

/// `s` is an IPv4 address mapped into IPv6 (`::ffff:a.b.c.d`).
pub open spec fn is_v4_mapped(s: Seq<u16>) -> bool {
    &&& s[0] == 0 && s[1] == 0 && s[2] == 0 && s[3] == 0 && s[4] == 0
    &&& s[5] == 0xffff
}

/// The text of eight segments: an IPv4-mapped address as `::ffff:` and
/// dotted decimal; otherwise lower-case hexadecimal segments with the first
/// longest run of two or more zero segments written `::`.
pub open spec fn v6_text(s: Seq<u16>) -> Seq<u8> {
    if is_v4_mapped(s) {
        ascii("::ffff:"@) + v4_text(
            seq![(s[6] / 256) as u8, (s[6] % 256) as u8, (s[7] / 256) as u8, (s[7] % 256) as u8],
        )
    } else {
        let (start, len) = longest_zero_run(s, 0);
        if len > 1 {
            joined_hex(s.subrange(0, start)) + ascii("::"@) + joined_hex(
                s.subrange(start + len, s.len() as int),
            )
        } else {
            joined_hex(s)
        }
    }
}

/// The usual text form of an address.
pub open spec fn ip_text(ip: IpAddress) -> Seq<u8> {
    match ip {
        IpAddress::V4(o) => v4_text(o@),
        IpAddress::V6(s) => v6_text(s@),
    }
}

/// The PROXY protocol (version 1) line announcing a connection from `src`
/// to `dst`: `TCP4` when both are IPv4 addresses, `TCP6` otherwise.
pub open spec fn proxy_header(src: Endpoint, dst: Endpoint) -> Seq<u8> {
    let family = match (src.ip, dst.ip) {
        (IpAddress::V4(_), IpAddress::V4(_)) => ascii("TCP4"@),
        _ => ascii("TCP6"@),
    };
    ascii("PROXY "@) + family + ascii(" "@) + ip_text(src.ip) + ascii(" "@) + ip_text(dst.ip)
        + ascii(" "@) + decimal(src.port as nat) + ascii(" "@) + decimal(dst.port as nat) + ascii(
        "\r\n"@,
    )
}

fn push_v4(out: &mut Vec<u8>, a: u8, b: u8, c: u8, d: u8)
    ensures
        final(out)@ == old(out)@ + v4_text(seq![a, b, c, d]),
{
    proof {
        reveal_strlit(".");
    }
    push_decimal(out, a as u32);
    push_ascii(out, ".");
    push_decimal(out, b as u32);
    push_ascii(out, ".");
    push_decimal(out, c as u32);
    push_ascii(out, ".");
    push_decimal(out, d as u32);
    let ghost o = seq![a, b, c, d];
    assert(o[0] == a && o[1] == b && o[2] == c && o[3] == d);
    assert(out@ =~= old(out)@ + v4_text(o));
}

/// Appends the segments `s[from..to]` separated by colons.
fn push_joined_hex(out: &mut Vec<u8>, s: &[u16; 8], from: usize, to: usize)
    requires
        from <= to <= 8,
    ensures
        final(out)@ == old(out)@ + joined_hex(s@.subrange(from as int, to as int)),
{
    let mut i: usize = from;
    while i < to
        invariant
            from <= i <= to <= 8,
            s@.len() == 8,
            out@ == old(out)@ + joined_hex(s@.subrange(from as int, i as int)),
        decreases to - i,
    {
        let ghost before = out@;
        if i > from {
            proof {
                reveal_strlit(":");
            }
            push_ascii(out, ":");
        }
        push_hex(out, s[i]);
        proof {
            let part = s@.subrange(from as int, i as int + 1);
            assert(part.drop_last() =~= s@.subrange(from as int, i as int));
            assert(part.last() == s@[i as int]);
            if i == from {
                assert(s@.subrange(from as int, i as int) =~= Seq::<u16>::empty());
                assert(part.len() == 1 && part[0] == s@[i as int]);
            }
        }
        i = i + 1;
        assert(out@ =~= old(out)@ + joined_hex(s@.subrange(from as int, i as int)));
    }
}

/// The first longest run of zero segments: its start and length.
fn find_longest_zero_run(s: &[u16; 8]) -> (r: (usize, usize))
    ensures
        r.0 as int == longest_zero_run(s@, 0).0,
        r.1 as nat == longest_zero_run(s@, 0).1,
        r.0 + r.1 <= 8,
{
    let mut i: usize = 8;
    let mut run: usize = 0;
    let mut start: usize = 8;
    let mut len: usize = 0;
    assert(s@.len() == 8);
    while i > 0
        invariant
            i <= 8,
            s@.len() == 8,
            run as nat == zero_run(s@, i as int),
            run + i <= 8,
            start as int == longest_zero_run(s@, i as int).0,
            len as nat == longest_zero_run(s@, i as int).1,
            start + len <= 8,
        decreases i,
    {
        i = i - 1;
        if s[i] == 0 {
            run = run + 1;
        } else {
            run = 0;
        }
        if run >= len {
            start = i;
            len = run;
        }
    }
    (start, len)
}

/// Appends the text of eight segments.
fn push_v6(out: &mut Vec<u8>, s: &[u16; 8])
    ensures
        final(out)@ == old(out)@ + v6_text(s@),
{
    assert(s@.len() == 8);
    if s[0] == 0 && s[1] == 0 && s[2] == 0 && s[3] == 0 && s[4] == 0 && s[5] == 0xffff {
        proof {
            reveal_strlit("::ffff:");
        }
        push_ascii(out, "::ffff:");
        push_v4(out, (s[6] / 256) as u8, (s[6] % 256) as u8, (s[7] / 256) as u8, (s[7] % 256) as u8);
        assert(out@ =~= old(out)@ + v6_text(s@));
    } else {
        let (start, len) = find_longest_zero_run(s);
        if len > 1 {
            proof {
                reveal_strlit("::");
            }
            push_joined_hex(out, s, 0, start);
            push_ascii(out, "::");
            push_joined_hex(out, s, start + len, 8);
        } else {
            push_joined_hex(out, s, 0, 8);
            assert(s@.subrange(0, 8) =~= s@);
        }
        assert(out@ =~= old(out)@ + v6_text(s@));
    }
}

impl IpAddress {
    /// The usual text form: dotted decimal for IPv4; for IPv6, lower-case
    /// hexadecimal with the longest run of zero segments compressed.
    pub fn text_bytes(&self) -> (r: Vec<u8>)
        ensures
            r@ == ip_text(*self),
    {
        let mut out: Vec<u8> = Vec::new();
        match self {
            IpAddress::V4(o) => {
                push_v4(&mut out, o[0], o[1], o[2], o[3]);
                assert(seq![o[0], o[1], o[2], o[3]] =~= o@);
            },
            IpAddress::V6(s) => {
                push_v6(&mut out, s);
            },
        }
        assert(out@ =~= ip_text(*self));
        out
    }

    /// The usual text form as a `String`.
    pub fn to_string(&self) -> (r: String)
        ensures
            r@ == ascii_chars(ip_text(*self)),
    {
        proof {
            lemma_ip_text_ascii(*self);
        }
        ascii_string(self.text_bytes())
    }
}

/// The PROXY protocol (version 1) line that announces a connection from
/// `src` to `dst`, sent upstream before any relayed byte.
pub fn haproxy_header(src: &Endpoint, dst: &Endpoint) -> (r: Vec<u8>)
    ensures
        r@ == proxy_header(*src, *dst),
{
    proof {
        reveal_strlit("PROXY ");
        reveal_strlit("TCP4");
        reveal_strlit("TCP6");
        reveal_strlit(" ");
        reveal_strlit("\r\n");
    }
    let mut out: Vec<u8> = Vec::new();
    push_ascii(&mut out, "PROXY ");
    match (&src.ip, &dst.ip) {
        (IpAddress::V4(_), IpAddress::V4(_)) => push_ascii(&mut out, "TCP4"),
        _ => push_ascii(&mut out, "TCP6"),
    }
    push_ascii(&mut out, " ");
    let src_text = src.ip.text_bytes();
    out.extend_from_slice(src_text.as_slice());
    push_ascii(&mut out, " ");
    let dst_text = dst.ip.text_bytes();
    out.extend_from_slice(dst_text.as_slice());
    push_ascii(&mut out, " ");
    push_decimal(&mut out, src.port as u32);
    push_ascii(&mut out, " ");
    push_decimal(&mut out, dst.port as u32);
    push_ascii(&mut out, "\r\n");
    assert(out@ =~= proxy_header(*src, *dst));
    out
}

proof fn lemma_v4_text_ascii(o: Seq<u8>)
    requires
        o.len() == 4,
    ensures
        all_ascii(v4_text(o)),
{
    reveal_strlit(".");
    lemma_literal_ascii(".");
    lemma_decimal_ascii(o[0] as nat);
    lemma_decimal_ascii(o[1] as nat);
    lemma_decimal_ascii(o[2] as nat);
    lemma_decimal_ascii(o[3] as nat);
    lemma_concat_ascii(decimal(o[0] as nat), ascii("."@));
    lemma_concat_ascii(decimal(o[0] as nat) + ascii("."@), decimal(o[1] as nat));
    lemma_concat_ascii(decimal(o[0] as nat) + ascii("."@) + decimal(o[1] as nat), ascii("."@));
    lemma_concat_ascii(
        decimal(o[0] as nat) + ascii("."@) + decimal(o[1] as nat) + ascii("."@),
        decimal(o[2] as nat),
    );
    lemma_concat_ascii(
        decimal(o[0] as nat) + ascii("."@) + decimal(o[1] as nat) + ascii("."@) + decimal(
            o[2] as nat,
        ),
        ascii("."@),
    );
    lemma_concat_ascii(
        decimal(o[0] as nat) + ascii("."@) + decimal(o[1] as nat) + ascii("."@) + decimal(
            o[2] as nat,
        ) + ascii("."@),
        decimal(o[3] as nat),
    );
}

proof fn lemma_concat_ascii(a: Seq<u8>, b: Seq<u8>)
    requires
        all_ascii(a),
        all_ascii(b),
    ensures
        all_ascii(a + b),
{
    assert forall|i: int| 0 <= i < (a + b).len() implies #[trigger] (a + b)[i] < 128 by {
        if i < a.len() {
            assert((a + b)[i] == a[i]);
        } else {
            assert((a + b)[i] == b[i - a.len()]);
        }
    }
}

proof fn lemma_joined_hex_ascii(s: Seq<u16>)
    ensures
        all_ascii(joined_hex(s)),
    decreases s.len(),
{
    if s.len() == 1 {
        lemma_hex_ascii(s[0] as nat);
    } else if s.len() > 1 {
        reveal_strlit(":");
        lemma_literal_ascii(":");
        lemma_joined_hex_ascii(s.drop_last());
        lemma_hex_ascii(s.last() as nat);
        lemma_concat_ascii(joined_hex(s.drop_last()), ascii(":"@));
        lemma_concat_ascii(joined_hex(s.drop_last()) + ascii(":"@), hex(s.last() as nat));
    }
}

/// Every text form of an address is ASCII.
proof fn lemma_ip_text_ascii(ip: IpAddress)
    ensures
        all_ascii(ip_text(ip)),
{
    match ip {
        IpAddress::V4(o) => lemma_v4_text_ascii(o@),
        IpAddress::V6(s) => {
            if is_v4_mapped(s@) {
                let o = seq![
                    (s@[6] / 256) as u8,
                    (s@[6] % 256) as u8,
                    (s@[7] / 256) as u8,
                    (s@[7] % 256) as u8,
                ];
                reveal_strlit("::ffff:");
                lemma_literal_ascii("::ffff:");
                lemma_v4_text_ascii(o);
                lemma_concat_ascii(ascii("::ffff:"@), v4_text(o));
            } else {
                let (start, len) = longest_zero_run(s@, 0);
                lemma_joined_hex_ascii(s@);
                if len > 1 {
                    reveal_strlit("::");
                    lemma_literal_ascii("::");
                    let head = joined_hex(s@.subrange(0, start));
                    let tail = joined_hex(s@.subrange(start + len, s@.len() as int));
                    lemma_joined_hex_ascii(s@.subrange(0, start));
                    lemma_joined_hex_ascii(s@.subrange(start + len, s@.len() as int));
                    lemma_concat_ascii(head, ascii("::"@));
                    lemma_concat_ascii(head + ascii("::"@), tail);
                }
            }
        },
    }
}

proof fn lemma_v4_text_len(o: Seq<u8>)
    requires
        o.len() == 4,
    ensures
        v4_text(o).len() <= 15,
{
    reveal_strlit(".");
    lemma_decimal_len(o[0] as nat);
    lemma_decimal_len(o[1] as nat);
    lemma_decimal_len(o[2] as nat);
    lemma_decimal_len(o[3] as nat);
}

proof fn lemma_joined_hex_len(s: Seq<u16>)
    ensures
        joined_hex(s).len() <= 5 * s.len(),
    decreases s.len(),
{
    if s.len() == 1 {
        lemma_hex_len(s[0] as nat);
    } else if s.len() > 1 {
        reveal_strlit(":");
        lemma_joined_hex_len(s.drop_last());
        lemma_hex_len(s.last() as nat);
    }
}

/// The text of an address takes at most 45 bytes.
pub proof fn lemma_ip_text_len(ip: IpAddress)
    ensures
        ip_text(ip).len() <= 45,
{
    match ip {
        IpAddress::V4(o) => lemma_v4_text_len(o@),
        IpAddress::V6(s) => {
            if is_v4_mapped(s@) {
                reveal_strlit("::ffff:");
                lemma_v4_text_len(
                    seq![
                        (s@[6] / 256) as u8,
                        (s@[6] % 256) as u8,
                        (s@[7] / 256) as u8,
                        (s@[7] % 256) as u8,
                    ],
                );
            } else {
                let (start, len) = longest_zero_run(s@, 0);
                lemma_joined_hex_len(s@);
                if len > 1 {
                    lemma_longest_run_bounds(s@, 0);
                    reveal_strlit("::");
                    lemma_joined_hex_len(s@.subrange(0, start));
                    lemma_joined_hex_len(s@.subrange(start + len, s@.len() as int));
                }
            }
        },
    }
}

proof fn lemma_longest_run_bounds(s: Seq<u16>, i: int)
    requires
        0 <= i <= s.len(),
    ensures
        ({
            let (start, len) = longest_zero_run(s, i);
            &&& i <= start <= s.len()
            &&& start + len <= s.len()
        }),
    decreases s.len() - i,
{
    if i < s.len() {
        lemma_longest_run_bounds(s, i + 1);
        lemma_zero_run_bound(s, i);
    }
}

proof fn lemma_zero_run_bound(s: Seq<u16>, i: int)
    requires
        0 <= i <= s.len(),
    ensures
        i + zero_run(s, i) <= s.len(),
    decreases s.len() - i,
{
    if i < s.len() && s[i] == 0 {
        lemma_zero_run_bound(s, i + 1);
    }
}

} // verus!
