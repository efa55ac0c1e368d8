//! Reading a PROXY protocol (version 1) line: the client's address text and
//! port.
use vstd::prelude::*;

use crate::addr::IpAddress;
use crate::error::Error;
use crate::text::utf8_string;
use vstd::string::{StrSliceExecFns, StringExecFns};
use vstd::utf8::{decode_utf8, encode_utf8, valid_utf8};

verus! {

/// Unicode `White_Space`, as `char::is_whitespace` documents it.
pub open spec fn is_white_space(c: char) -> bool {
    let u = c as u32;
    ||| 9 <= u <= 13
    ||| u == 32
    ||| u == 0x85
    ||| u == 0xA0
    ||| u == 0x1680
    ||| 0x2000 <= u <= 0x200A
    ||| u == 0x2028
    ||| u == 0x2029
    ||| u == 0x202F
    ||| u == 0x205F
    ||| u == 0x3000
}

/// The words finished so far, and the word being read, after `s`.
pub open spec fn split_words(s: Seq<char>) -> (Seq<Seq<char>>, Seq<char>)
    decreases s.len(),
{
    if s.len() == 0 {
        (Seq::empty(), Seq::empty())
    } else {
        let (done, cur) = split_words(s.drop_last());
        if is_white_space(s.last()) {
            if cur.len() > 0 {
                (done.push(cur), Seq::empty())
            } else {
                (done, Seq::empty())
            }
        } else {
            (done, cur.push(s.last()))
        }
    }
}

/// The maximal runs of non-whitespace characters of `s`, in order.
pub open spec fn words(s: Seq<char>) -> Seq<Seq<char>> {
    let (done, cur) = split_words(s);
    if cur.len() > 0 {
        done.push(cur)
    } else {
        done
    }
}

/// The number that decimal digits `s` stand for.
pub open spec fn digits_value(s: Seq<u8>) -> nat
    decreases s.len(),
{
    if s.len() == 0 {
        0
    } else {
        (digits_value(s.drop_last()) * 10 + (s.last() - 48)) as nat
    }
}

pub open spec fn all_digits(s: Seq<u8>) -> bool {
    forall|i: int| 0 <= i < s.len() ==> 48 <= #[trigger] s[i] <= 57
}

/// A port in decimal, as `u16::from_str` reads it: an optional `+`, then at
/// least one digit, at most 65535.
pub open spec fn port_value(s: Seq<u8>) -> Option<u16> {
    let d = if s.len() > 0 && s[0] == 43 {
        s.drop_first()
    } else {
        s
    };
    if d.len() == 0 || !all_digits(d) || digits_value(d) > 0xFFFF {
        None
    } else {
        Some(digits_value(d) as u16)
    }
}

/// Where a proxied connection came from.
#[derive(Debug, Clone, Copy, PartialEq, Eq)]
pub struct HAProxyInfo {
    pub src_addr: IpAddress,
    pub src_port: u16,
}

/// What a PROXY line says of the client, before its address is read.
#[derive(Debug, Clone, PartialEq, Eq)]
pub struct ProxyHeaderFields {
    /// The text of the source address (third word).
    pub src_addr: String,
    /// The source port (fifth word).
    pub src_port: u16,
}

/// The fields of the PROXY line `data`: it must be valid UTF-8, hold at
/// least six whitespace-separated words, the first `PROXY`, and a port as
/// its fifth.
pub open spec fn header_fields(data: Seq<u8>) -> Option<(Seq<char>, u16)> {
    let w = words(decode_utf8(data));
    if !valid_utf8(data) || w.len() < 6 || w[0] != "PROXY"@ {
        None
    } else {
        match port_value(encode_utf8(w[4])) {
            Some(p) => Some((w[2], p)),
            None => None,
        }
    }
}

proof fn lemma_digits_grow(s: Seq<u8>, k: int)
    requires
        0 <= k <= s.len(),
        all_digits(s),
    ensures
        digits_value(s.subrange(0, k)) <= digits_value(s),
    decreases s.len() - k,
{
    if k < s.len() {
        let t = s.subrange(0, k + 1);
        assert(t.drop_last() =~= s.subrange(0, k));
        assert(t.last() == s[k]);
        lemma_digits_grow(s, k + 1);
    } else {
        assert(s.subrange(0, k) =~= s);
    }
}

/// Reads a port the way `u16::from_str` does.
pub fn parse_port(s: &[u8]) -> (r: Option<u16>)
    ensures
        r == port_value(s@),
{
    let n = s.len();
    let mut i: usize = 0;
    if n > 0 && s[0] == 43 {
        i = 1;
    }
    let ghost d = if s@.len() > 0 && s@[0] == 43 {
        s@.drop_first()
    } else {
        s@
    };
    assert(d =~= s@.subrange(i as int, n as int));
    if i >= n {
        return None;
    }
    let start = i;
    let mut acc: u32 = 0;
    while i < n
        invariant
            n == s@.len(),
            start <= i <= n,
            start < n,
            d =~= s@.subrange(start as int, n as int),
            d.len() > 0,
            port_value(s@) == (if !all_digits(d) || digits_value(d) > 0xFFFF {
                None::<u16>
            } else {
                Some(digits_value(d) as u16)
            }),
            all_digits(s@.subrange(start as int, i as int)),
            acc == digits_value(s@.subrange(start as int, i as int)),
            acc <= 0xFFFF,
        decreases n - i,
    {
        let c = s[i];
        let part = Ghost(s@.subrange(start as int, i + 1));
        assert(part@.drop_last() =~= s@.subrange(start as int, i as int));
        if c < 48 || c > 57 {
            assert(d[i - start] == c);
            return None;
        }
        acc = acc * 10 + (c - 48) as u32;
        i = i + 1;
        if acc > 0xFFFF {
            proof {
                assert(d.subrange(0, i - start) =~= s@.subrange(start as int, i as int));
                if all_digits(d) {
                    lemma_digits_grow(d, i - start);
                }
            }
            return None;
        }
    }
    assert(s@.subrange(start as int, n as int) =~= d);
    Some(acc as u16)
}

/// Where each word of `text` starts and ends, in characters.
fn word_spans(text: &str) -> (r: Vec<(usize, usize)>)
    ensures
        r@.len() == words(text@).len(),
        forall|k: int|
            #![trigger r@[k]]
            0 <= k < r@.len() ==> r@[k].0 <= r@[k].1 <= text@.len() && text@.subrange(
                r@[k].0 as int,
                r@[k].1 as int,
            ) == words(text@)[k],
{
    let n = text.unicode_len();
    let mut spans: Vec<(usize, usize)> = Vec::new();
    let mut start: usize = 0;
    let mut i: usize = 0;
    while i < n
        invariant
            n == text@.len(),
            start <= i <= n,
            spans@.len() == split_words(text@.subrange(0, i as int)).0.len(),
            forall|k: int|
                #![trigger spans@[k]]
                0 <= k < spans@.len() ==> spans@[k].0 <= spans@[k].1 <= i && text@.subrange(
                    spans@[k].0 as int,
                    spans@[k].1 as int,
                ) == split_words(text@.subrange(0, i as int)).0[k],
            text@.subrange(start as int, i as int) == split_words(text@.subrange(0, i as int)).1,
        decreases n - i,
    {
        let c = text.get_char(i);
        let u = c as u32;
        let ghost prev = split_words(text@.subrange(0, i as int));
        proof {
            assert(text@.subrange(0, i + 1).drop_last() =~= text@.subrange(0, i as int));
            assert(text@.subrange(0, i + 1).last() == c);
        }
        if (9 <= u && u <= 13) || u == 32 || u == 0x85 || u == 0xA0 || u == 0x1680 || (0x2000
            <= u && u <= 0x200A) || u == 0x2028 || u == 0x2029 || u == 0x202F || u == 0x205F || u
            == 0x3000 {
            let ghost old_spans = spans@;
            let ghost old_start = start;
            let ghost old_i = i;
            assert(is_white_space(c));
            if start < i {
                spans.push((start, i));
            }
            i = i + 1;
            start = i;
            assert(text@.subrange(start as int, i as int) =~= Seq::<char>::empty());
            proof {
                let now = split_words(text@.subrange(0, i as int));
                assert(prev.1.len() == old_i - old_start);
                if old_start < old_i {
                    assert(now.0 == prev.0.push(prev.1));
                    assert(spans@[old_spans.len() as int] == (old_start, old_i));
                } else {
                    assert(now.0 == prev.0);
                }
                assert forall|k: int| 0 <= k < spans@.len() implies spans@[k].0 <= spans@[k].1 <= i
                    && text@.subrange(spans@[k].0 as int, spans@[k].1 as int) == now.0[k] by {
                    if k < old_spans.len() {
                        assert(spans@[k] == old_spans[k]);
                        let sp = old_spans[k];
                        assert(sp.0 <= sp.1 <= old_i);
                        assert(text@.subrange(old_spans[k].0 as int, old_spans[k].1 as int)
                            == prev.0[k]);
                        assert(now.0[k] == prev.0[k]);
                    } else {
                        assert(now.0[k] == prev.1);
                    }
                }
            }
        } else {
            assert(!is_white_space(c));
            i = i + 1;
            assert(text@.subrange(start as int, i as int) =~= prev.1.push(c));
            assert(split_words(text@.subrange(0, i as int)).0 == prev.0);
        }
        assert(spans@.len() == split_words(text@.subrange(0, i as int)).0.len());
    }
    assert(text@.subrange(0, n as int) =~= text@);
    let ghost old_spans = spans@;
    let ghost fin = split_words(text@);
    if start < n {
        spans.push((start, n));
    }
    proof {
        assert(fin.1.len() == n - start);
        if start < n {
            assert(words(text@) == fin.0.push(fin.1));
            assert(spans@[old_spans.len() as int] == (start, n));
        } else {
            assert(words(text@) == fin.0);
        }
        assert forall|k: int| 0 <= k < spans@.len() implies spans@[k].0 <= spans@[k].1 <= text@.len()
            && text@.subrange(spans@[k].0 as int, spans@[k].1 as int) == words(text@)[k] by {
            if k < old_spans.len() {
                assert(spans@[k] == old_spans[k]);
                assert(old_spans[k].0 <= old_spans[k].1 <= n);
                assert(text@.subrange(old_spans[k].0 as int, old_spans[k].1 as int) == fin.0[k]);
                assert(words(text@)[k] == fin.0[k]);
            } else {
                assert(words(text@)[k] == fin.1);
            }
        }
    }
    spans
}

fn bytes_to_vec(b: &[u8]) -> (r: Vec<u8>)
    ensures
        r@ == b@,
{
    let mut out: Vec<u8> = Vec::new();
    let mut i: usize = 0;
    while i < b.len()
        invariant
            i <= b@.len(),
            out@ == b@.subrange(0, i as int),
        decreases b@.len() - i,
    {
        out.push(b[i]);
        i = i + 1;
        assert(out@ =~= b@.subrange(0, i as int));
    }
    assert(b@.subrange(0, b@.len() as int) =~= b@);
    out
}

/// Reads the PROXY line `data`: the source address text and port. Fails
/// with `InvalidHAProxyHeader` unless the line is valid UTF-8, has at least
/// six words, starts with `PROXY`, and its fifth word is a port.
pub fn parse_haproxy_header(data: &[u8]) -> (r: Result<ProxyHeaderFields, Error>)
    ensures
        match header_fields(data@) {
            Some((addr, port)) => r matches Ok(f) && f.src_addr@ == addr && f.src_port == port,
            None => r == Err::<ProxyHeaderFields, Error>(Error::InvalidHAProxyHeader),
        },
{
    let line = match utf8_string(bytes_to_vec(data)) {
        Some(l) => l,
        None => {
            return Err(Error::InvalidHAProxyHeader);
        },
    };
    let text = line.as_str();
    let spans = word_spans(text);
    let ghost w = words(text@);
    if spans.len() < 6 {
        return Err(Error::InvalidHAProxyHeader);
    }
    let (a0, b0) = spans[0];
    let (a2, b2) = spans[2];
    let (a4, b4) = spans[4];
    assert(text@.subrange(a0 as int, b0 as int) == w[0]);
    let first = String::from_str(text.substring_char(a0, b0));
    let proxy = String::from_str("PROXY");
    if first != proxy {
        return Err(Error::InvalidHAProxyHeader);
    }
    let port_word = text.substring_char(a4, b4);
    match parse_port(port_word.as_bytes()) {
        Some(p) => Ok(
            ProxyHeaderFields { src_addr: String::from_str(text.substring_char(a2, b2)), src_port: p },
        ),
        None => Err(Error::InvalidHAProxyHeader),
    }
}

} // verus!
