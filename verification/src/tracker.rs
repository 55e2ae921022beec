//! Tracker boundary: the announce URL a torrent names, and the bencoded
//! response a tracker answers with.  The HTTP(S) exchange itself belongs to
//! the caller that owns the socket; this module takes the URL apart for it
//! and turns the response bytes it read into the tracker's peer list.

use vstd::prelude::*;

verus! {

/// Whether the tracker speaks plain HTTP or HTTPS.
#[derive(Debug, Clone, Copy, PartialEq, Eq, Structural)]
pub enum ConnectionProtocol {
    Http,
    Https,
}

/// Error returned for an announce URL this module cannot read.
#[derive(Debug, Clone, Copy, PartialEq, Eq, Structural)]
pub enum TrackerUrlError {
    UnsupportedScheme,
    EmptyHost,
    BadPort,
}

/// The bytes of the scheme prefix naming plain HTTP.
pub open spec fn spec_http_prefix() -> Seq<u8> {
    seq![0x68u8, 0x74u8, 0x74u8, 0x70u8, 0x3au8, 0x2fu8, 0x2fu8]
}

/// The bytes of the scheme prefix naming HTTPS.
pub open spec fn spec_https_prefix() -> Seq<u8> {
    seq![0x68u8, 0x74u8, 0x74u8, 0x70u8, 0x73u8, 0x3au8, 0x2fu8, 0x2fu8]
}

/// Whether `prefix` is a prefix of `s`.
pub open spec fn spec_starts_with(s: Seq<u8>, prefix: Seq<u8>) -> bool {
    s.len() >= prefix.len() && s.subrange(0, prefix.len() as int) == prefix
}

/// Whether byte `b` ends the host part of a URL: a port or a path follows.
pub open spec fn spec_is_host_delim(b: u8) -> bool {
    b == 0x3a || b == 0x2f
}

/// Whether byte `b` is an ASCII decimal digit.
pub open spec fn spec_is_digit(b: u8) -> bool {
    0x30 <= b <= 0x39
}

/// Where the host part of `s` ends, scanning from `i`: the first `:` or
/// `/`, or the end of the string.
pub open spec fn spec_host_end(s: Seq<u8>, i: int) -> int
    recommends
        0 <= i <= s.len(),
    decreases s.len() - i when 0 <= i <= s.len()
{
    if i >= s.len() {
        s.len() as int
    } else if spec_is_host_delim(s[i]) {
        i
    } else {
        spec_host_end(s, i + 1)
    }
}

/// A scan that stopped at the first delimiter found where the host ends.
pub proof fn lemma_host_end_from_scan(s: Seq<u8>, k: int, i: int)
    requires
        0 <= k <= i <= s.len(),
        forall|j: int| k <= j < i ==> !spec_is_host_delim(#[trigger] s[j]),
        i == s.len() || spec_is_host_delim(s[i]),
    ensures
        spec_host_end(s, k) == i,
    decreases i - k,
{
    if k < i {
        lemma_host_end_from_scan(s, k + 1, i);
    }
}

/// Where the run of digits starting at `i` in `s` ends.
pub open spec fn spec_digit_end(s: Seq<u8>, i: int) -> int
    recommends
        0 <= i <= s.len(),
    decreases s.len() - i when 0 <= i <= s.len()
{
    if i >= s.len() {
        s.len() as int
    } else if spec_is_digit(s[i]) {
        spec_digit_end(s, i + 1)
    } else {
        i
    }
}

/// A scan that stopped at the first non-digit found where the run ends.
pub proof fn lemma_digit_end_from_scan(s: Seq<u8>, k: int, i: int)
    requires
        0 <= k <= i <= s.len(),
        forall|j: int| k <= j < i ==> spec_is_digit(#[trigger] s[j]),
        i == s.len() || !spec_is_digit(s[i]),
    ensures
        spec_digit_end(s, k) == i,
    decreases i - k,
{
    if k < i {
        lemma_digit_end_from_scan(s, k + 1, i);
    }
}

/// The number the ASCII digits `s` spell in decimal.
pub open spec fn spec_decimal_value(s: Seq<u8>) -> int
    decreases s.len(),
{
    if s.len() == 0 {
        0int
    } else {
        spec_decimal_value(s.drop_last()) * 10 + (s.last() - 0x30)
    }
}

/// Digits spell a number that is not negative.
pub proof fn lemma_decimal_nonneg(s: Seq<u8>)
    requires
        forall|j: int| 0 <= j < s.len() ==> spec_is_digit(#[trigger] s[j]),
    ensures
        spec_decimal_value(s) >= 0,
    decreases s.len(),
{
    if s.len() > 0 {
        assert(forall|j: int|
            0 <= j < s.drop_last().len() ==> spec_is_digit(#[trigger] s.drop_last()[j]));
        lemma_decimal_nonneg(s.drop_last());
    }
}

/// Appending digits never makes the number smaller.
pub proof fn lemma_decimal_prefix_le(s: Seq<u8>, k: int)
    requires
        0 <= k <= s.len(),
        forall|j: int| 0 <= j < s.len() ==> spec_is_digit(#[trigger] s[j]),
    ensures
        spec_decimal_value(s.subrange(0, k)) <= spec_decimal_value(s),
    decreases s.len() - k,
{
    if k == s.len() {
        assert(s.subrange(0, k) =~= s);
    } else {
        let shorter = s.subrange(0, k);
        let longer = s.subrange(0, k + 1);
        assert(longer.drop_last() =~= shorter);
        assert(forall|j: int| 0 <= j < shorter.len() ==> spec_is_digit(#[trigger] shorter[j]));
        lemma_decimal_nonneg(shorter);
        assert(spec_is_digit(longer.last()));
        lemma_decimal_prefix_le(s, k + 1);
    }
}

/// The digit run's end never comes before its start nor after the string.
pub proof fn lemma_digit_end_bounds(s: Seq<u8>, k: int)
    requires
        0 <= k <= s.len(),
    ensures
        k <= spec_digit_end(s, k) <= s.len(),
    decreases s.len() - k,
{
    if k < s.len() && spec_is_digit(s[k]) {
        lemma_digit_end_bounds(s, k + 1);
    }
}

/// Everything before the digit run's end is a digit.
pub proof fn lemma_digit_end_digits(s: Seq<u8>, k: int)
    requires
        0 <= k <= s.len(),
    ensures
        forall|j: int| k <= j < spec_digit_end(s, k) ==> spec_is_digit(#[trigger] s[j]),
    decreases s.len() - k,
{
    if k < s.len() && spec_is_digit(s[k]) {
        lemma_digit_end_digits(s, k + 1);
    }
}

/// The digit run's end lies past any stretch of digits from its start.
pub proof fn lemma_digit_end_at_least(s: Seq<u8>, k: int, t: int)
    requires
        0 <= k <= t <= s.len(),
        forall|j: int| k <= j < t ==> spec_is_digit(#[trigger] s[j]),
    ensures
        spec_digit_end(s, k) >= t,
    decreases t - k,
{
    lemma_digit_end_bounds(s, k);
    if k < t {
        lemma_digit_end_at_least(s, k + 1, t);
    }
}

/// The URLs that parsing owes an acceptance: a known scheme, a host, and
/// after it nothing, a path, or a `:`, at least one port digit spelling at
/// most 65535, and then the end or a path.
pub open spec fn spec_url_wellformed(s: Seq<u8>) -> bool {
    let https = spec_starts_with(s, spec_https_prefix());
    let http = spec_starts_with(s, spec_http_prefix());
    let rest = s.skip(
        if https {
            8int
        } else {
            7int
        },
    );
    let he = spec_host_end(rest, 0);
    &&& (http || https)
    &&& he > 0
    &&& (he == rest.len() || rest[he] == 0x2f || ({
        let pe = spec_digit_end(rest, he + 1);
        &&& rest[he] == 0x3a
        &&& pe > he + 1
        &&& spec_decimal_value(rest.subrange(he + 1, pe)) <= 65535
        &&& (pe == rest.len() || rest[pe] == 0x2f)
    }))
}

/// An announce URL taken apart: scheme, host, port and path.
#[derive(Debug, Clone)]
pub struct TrackerUrl {
    pub protocol: ConnectionProtocol,
    pub host: Vec<u8>,
    pub port: u32,
    pub path: Vec<u8>,
}

impl TrackerUrl {
    /// What parsing promises about an accepted URL `s`: the scheme prefix
    /// decides the protocol, the host runs to the first `:` or `/`, an
    /// explicit port is the decimal run after `:`, the scheme's usual port
    /// stands in otherwise, and the path is the rest from its `/`, empty
    /// when there is none.
    pub open spec fn spec_parsed_from(&self, s: Seq<u8>) -> bool {
        let scheme_len: int = if self.protocol is Https {
            8
        } else {
            7
        };
        let rest = s.skip(scheme_len);
        let he = spec_host_end(rest, 0);
        &&& if self.protocol is Https {
            spec_starts_with(s, spec_https_prefix())
        } else {
            spec_starts_with(s, spec_http_prefix())
        }
        &&& he > 0
        &&& self.host@ == rest.subrange(0, he)
        &&& if he == rest.len() {
            // Nothing after the host.
            &&& self.port == (if self.protocol is Https {
                443int
            } else {
                80int
            })
            &&& self.path@.len() == 0
        } else if rest[he] == 0x2f {
            // A path but no explicit port.
            &&& self.port == (if self.protocol is Https {
                443int
            } else {
                80int
            })
            &&& self.path@ == rest.skip(he)
        } else {
            // An explicit port, then possibly a path.
            let pe = spec_digit_end(rest, he + 1);
            &&& pe > he + 1
            &&& self.port == spec_decimal_value(rest.subrange(he + 1, pe))
            &&& self.port <= 65535
            &&& if pe == rest.len() {
                self.path@.len() == 0
            } else {
                rest[pe] == 0x2f && self.path@ == rest.skip(pe)
            }
        }
    }

    /// Takes an announce URL apart.  An accepted URL has the shape
    /// `spec_parsed_from` describes; a refused one lacks a known scheme,
    /// has an empty host, or follows the host's `:` with anything but a
    /// port of at most five digits' worth.
    #[verifier::loop_isolation(false)]
    #[verifier::rlimit(40)]
    pub fn parse(url: &[u8]) -> (r: Result<TrackerUrl, TrackerUrlError>)
        ensures
            r matches Ok(u) ==> u.spec_parsed_from(url@) && (u.protocol is Https
                <==> spec_starts_with(url@, spec_https_prefix())),
            r == Err::<TrackerUrl, TrackerUrlError>(TrackerUrlError::UnsupportedScheme)
                ==> !spec_starts_with(url@, spec_http_prefix()) && !spec_starts_with(
                url@,
                spec_https_prefix(),
            ),
            r == Err::<TrackerUrl, TrackerUrlError>(TrackerUrlError::EmptyHost) ==> ({
                let https = spec_starts_with(url@, spec_https_prefix());
                let http = spec_starts_with(url@, spec_http_prefix());
                let rest = url@.skip(
                    if https {
                        8int
                    } else {
                        7int
                    },
                );
                (http || https) && spec_host_end(rest, 0) == 0
            }),
            r == Err::<TrackerUrl, TrackerUrlError>(TrackerUrlError::BadPort) ==> ({
                let https = spec_starts_with(url@, spec_https_prefix());
                let http = spec_starts_with(url@, spec_http_prefix());
                let rest = url@.skip(
                    if https {
                        8int
                    } else {
                        7int
                    },
                );
                let he = spec_host_end(rest, 0);
                (http || https) && he > 0 && he < rest.len() && rest[he] == 0x3a
            }),
            spec_url_wellformed(url@) ==> r is Ok,
    {
        let https = starts_with_https(url);
        let http = starts_with_http(url);
        if !http && !https {
            return Err(TrackerUrlError::UnsupportedScheme);
        }
        let scheme_len: usize = if https {
            8
        } else {
            7
        };
        let protocol = if https {
            ConnectionProtocol::Https
        } else {
            ConnectionProtocol::Http
        };
        let default_port: u32 = if https {
            443
        } else {
            80
        };
        let ghost rest = url@.skip(scheme_len as int);
        let len = url.len();
        let mut i: usize = scheme_len;
        while i < len && url[i] != 0x3a && url[i] != 0x2f
            invariant
                scheme_len <= i <= len,
                len == url@.len(),
                scheme_len <= len,
                rest == url@.skip(scheme_len as int),
                forall|j: int|
                    0 <= j < i - scheme_len ==> !spec_is_host_delim(#[trigger] rest[j]),
            decreases len - i,
        {
            proof {
                assert(rest[i - scheme_len] == url@[i as int]);
            }
            i = i + 1;
        }
        let he = i - scheme_len;
        proof {
            if i < len {
                assert(rest[he as int] == url@[i as int]);
            }
            lemma_host_end_from_scan(rest, 0, he as int);
        }
        if he == 0 {
            return Err(TrackerUrlError::EmptyHost);
        }
        let mut host: Vec<u8> = Vec::new();
        let mut h: usize = scheme_len;
        while h < i
            invariant
                scheme_len <= h <= i <= len,
                len == url@.len(),
                rest == url@.skip(scheme_len as int),
                host@ =~= rest.subrange(0, h - scheme_len),
            decreases i - h,
        {
            host.push(url[h]);
            h = h + 1;
        }
        if i == len {
            return Ok(TrackerUrl { protocol, host, port: default_port, path: Vec::new() });
        }
        if url[i] == 0x2f {
            let path = copy_tail(url, i);
            assert(path@ =~= rest.skip(he as int));
            return Ok(TrackerUrl { protocol, host, port: default_port, path });
        }
        // A ':' follows the host: a decimal port, then possibly a path.
        proof {
            assert(rest[he as int] == url@[i as int]);
        }
        let mut p: usize = i + 1;
        let mut port: u32 = 0;
        while p < len && url[p] >= 0x30 && url[p] <= 0x39
            invariant
                i + 1 <= p <= len,
                len == url@.len(),
                scheme_len <= i,
                rest == url@.skip(scheme_len as int),
                he == i - scheme_len,
                forall|j: int|
                    he + 1 <= j < p - scheme_len ==> spec_is_digit(#[trigger] rest[j]),
                port == spec_decimal_value(rest.subrange(he as int + 1, p - scheme_len)),
                port <= 65535,
            decreases len - p,
        {
            let d = url[p] - 0x30;
            if port > 6553 || (port == 6553 && d > 5) {
                // Any port written with these digits exceeds 65535, so the
                // URL is owed no acceptance.
                proof {
                    let hei = he as int;
                    let jj = p - scheme_len;
                    assert(rest[jj] == url@[p as int]);
                    lemma_digit_end_at_least(rest, hei + 1, jj + 1);
                    lemma_digit_end_bounds(rest, hei + 1);
                    lemma_digit_end_digits(rest, hei + 1);
                    let pe = spec_digit_end(rest, hei + 1);
                    let full = rest.subrange(hei + 1, pe);
                    let now = rest.subrange(hei + 1, jj + 1);
                    let pre = rest.subrange(hei + 1, jj);
                    assert(now.drop_last() =~= pre);
                    assert(now.last() == rest[jj]);
                    assert(spec_decimal_value(now) == port * 10 + d);
                    assert(full.subrange(0, jj + 1 - (hei + 1)) =~= now);
                    assert forall|t: int| 0 <= t < full.len() implies spec_is_digit(
                        #[trigger] full[t],
                    ) by {
                        assert(full[t] == rest[hei + 1 + t]);
                    }
                    lemma_decimal_prefix_le(full, jj + 1 - (hei + 1));
                    assert(spec_decimal_value(full) > 65535);
                }
                return Err(TrackerUrlError::BadPort);
            }
            proof {
                let pre = rest.subrange(he as int + 1, p - scheme_len);
                let now = rest.subrange(he as int + 1, p + 1 - scheme_len);
                assert(now.drop_last() =~= pre);
                assert(now.last() == rest[p - scheme_len]);
                assert(rest[p - scheme_len] == url@[p as int]);
            }
            port = port * 10 + d as u32;
            p = p + 1;
        }
        if p == i + 1 {
            // No digit follows the ':', so the URL is owed no acceptance.
            proof {
                if p < len {
                    assert(rest[p - scheme_len] == url@[p as int]);
                }
                lemma_digit_end_from_scan(rest, he as int + 1, p - scheme_len);
            }
            return Err(TrackerUrlError::BadPort);
        }
        proof {
            if p < len {
                assert(rest[p - scheme_len] == url@[p as int]);
            }
            lemma_digit_end_from_scan(rest, he as int + 1, p - scheme_len);
        }
        if p == len {
            let u = TrackerUrl { protocol, host, port, path: Vec::new() };
            proof {
                assert(u.spec_parsed_from(url@));
            }
            return Ok(u);
        }
        proof {
            assert(rest[p - scheme_len] == url@[p as int]);
        }
        if url[p] != 0x2f {
            return Err(TrackerUrlError::BadPort);
        }
        let path = copy_tail(url, p);
        assert(path@ =~= rest.skip(p - scheme_len));
        let u = TrackerUrl { protocol, host, port, path };
        proof {
            assert(u.spec_parsed_from(url@));
        }
        Ok(u)
    }
}

/// Whether the bytes start with the HTTPS scheme prefix.
fn starts_with_https(url: &[u8]) -> (r: bool)
    ensures
        r == spec_starts_with(url@, spec_https_prefix()),
{
    if url.len() < 8 {
        return false;
    }
    let r = url[0] == 0x68 && url[1] == 0x74 && url[2] == 0x74 && url[3] == 0x70 && url[4] == 0x73
        && url[5] == 0x3a && url[6] == 0x2f && url[7] == 0x2f;
    proof {
        if r {
            assert(url@.subrange(0, 8) =~= spec_https_prefix());
        } else {
            if url@.subrange(0, 8) == spec_https_prefix() {
                assert(forall|j: int| 0 <= j < 8 ==> url@[j] == spec_https_prefix()[j]);
            }
        }
    }
    r
}

/// Whether the bytes start with the plain HTTP scheme prefix.
fn starts_with_http(url: &[u8]) -> (r: bool)
    ensures
        r == spec_starts_with(url@, spec_http_prefix()),
{
    if url.len() < 7 {
        return false;
    }
    let r = url[0] == 0x68 && url[1] == 0x74 && url[2] == 0x74 && url[3] == 0x70 && url[4] == 0x3a
        && url[5] == 0x2f && url[6] == 0x2f;
    proof {
        if r {
            assert(url@.subrange(0, 7) =~= spec_http_prefix());
        } else {
            if url@.subrange(0, 7) == spec_http_prefix() {
                assert(forall|j: int| 0 <= j < 7 ==> url@[j] == spec_http_prefix()[j]);
            }
        }
    }
    r
}

/// Copies the bytes from `start` to the end.
fn copy_tail(bytes: &[u8], start: usize) -> (r: Vec<u8>)
    requires
        start <= bytes@.len(),
    ensures
        r@ == bytes@.skip(start as int),
{
    let mut out: Vec<u8> = Vec::new();
    let mut j: usize = start;
    while j < bytes.len()
        invariant
            start <= j <= bytes@.len(),
            out@ =~= bytes@.subrange(start as int, j as int),
        decreases bytes@.len() - j,
    {
        out.push(bytes[j]);
        j = j + 1;
    }
    proof {
        assert(out@ =~= bytes@.skip(start as int));
    }
    out
}

/// Error returned for tracker response bytes that are not the bencoded
/// dictionary this module reads.
#[derive(Debug, Clone, Copy, PartialEq, Eq, Structural)]
pub enum FromTrackerResponseError {
    InvalidResponse,
}

/// One peer a tracker announced: its address as the tracker wrote it, its
/// port, and its identity when the tracker included one.
#[derive(Debug, Clone)]
pub struct TrackerPeer {
    pub ip: Vec<u8>,
    pub port: u32,
    pub peer_id: Option<Vec<u8>>,
}

/// A tracker's answer to an announce: how long to wait before asking
/// again, and the peers it knows.
#[derive(Debug, Clone)]
pub struct TrackerResponse {
    pub interval: u64,
    pub peers: Vec<TrackerPeer>,
}

/// Reads a run of ASCII digits as a number.  Fails when no digit stands at
/// `pos` or the number would not fit 32 bits.
fn parse_number(bytes: &[u8], pos: usize) -> (r: Result<(u64, usize), FromTrackerResponseError>)
    ensures
        r matches Ok(v) ==> pos < v.1 <= bytes@.len() && v.0 <= u32::MAX,
{
    let len = bytes.len();
    if pos >= len || bytes[pos] < 0x30 || bytes[pos] > 0x39 {
        return Err(FromTrackerResponseError::InvalidResponse);
    }
    let mut j: usize = pos;
    let mut acc: u64 = 0;
    while j < len && bytes[j] >= 0x30 && bytes[j] <= 0x39
        invariant
            pos <= j <= len,
            len == bytes@.len(),
            acc <= u32::MAX,
        decreases len - j,
    {
        let d = (bytes[j] - 0x30) as u64;
        // (u32::MAX - 9) / 10: one more digit would overflow 32 bits.
        if acc > 429496728 {
            return Err(FromTrackerResponseError::InvalidResponse);
        }
        acc = acc * 10 + d;
        j = j + 1;
    }
    Ok((acc, j))
}

/// Reads a bencoded byte string, `<length>:<bytes>`.
fn parse_bstring(bytes: &[u8], pos: usize) -> (r: Result<
    (Vec<u8>, usize),
    FromTrackerResponseError,
>)
    ensures
        r matches Ok(v) ==> pos < v.1 <= bytes@.len(),
{
    let len = bytes.len();
    let (n, after) = match parse_number(bytes, pos) {
        Ok(v) => v,
        Err(e) => {
            return Err(e);
        },
    };
    if after >= len || bytes[after] != 0x3a {
        return Err(FromTrackerResponseError::InvalidResponse);
    }
    let start = after + 1;
    let nu = n as usize;
    if nu > len - start {
        return Err(FromTrackerResponseError::InvalidResponse);
    }
    let mut out: Vec<u8> = Vec::new();
    let mut j: usize = start;
    while j < start + nu
        invariant
            start <= j <= start + nu,
            start + nu <= len,
            len == bytes@.len(),
            out@ =~= bytes@.subrange(start as int, j as int),
        decreases start + nu - j,
    {
        out.push(bytes[j]);
        j = j + 1;
    }
    Ok((out, start + nu))
}

/// Walks over one bencoded value of any kind and reports where it ends.
fn skip_bvalue(bytes: &[u8], pos: usize) -> (r: Result<usize, FromTrackerResponseError>)
    ensures
        r matches Ok(end) ==> pos < end <= bytes@.len(),
    decreases bytes@.len() - pos,
{
    let len = bytes.len();
    if pos >= len {
        return Err(FromTrackerResponseError::InvalidResponse);
    }
    let b = bytes[pos];
    if b == 0x69 {
        // An integer: everything to its 'e'.
        let mut j: usize = pos + 1;
        while j < len && bytes[j] != 0x65
            invariant
                pos + 1 <= j <= len,
                len == bytes@.len(),
            decreases len - j,
        {
            j = j + 1;
        }
        if j >= len {
            return Err(FromTrackerResponseError::InvalidResponse);
        }
        Ok(j + 1)
    } else if b >= 0x30 && b <= 0x39 {
        match parse_bstring(bytes, pos) {
            Ok((_, end)) => Ok(end),
            Err(e) => Err(e),
        }
    } else if b == 0x6c {
        // A list: values until its 'e'.
        let mut j: usize = pos + 1;
        while j < len && bytes[j] != 0x65
            invariant
                pos + 1 <= j <= len,
                len == bytes@.len(),
            decreases len - j,
        {
            j = match skip_bvalue(bytes, j) {
                Ok(end) => end,
                Err(e) => {
                    return Err(e);
                },
            };
        }
        if j >= len {
            return Err(FromTrackerResponseError::InvalidResponse);
        }
        Ok(j + 1)
    } else if b == 0x64 {
        // A dictionary: key and value pairs until its 'e'.
        let mut j: usize = pos + 1;
        while j < len && bytes[j] != 0x65
            invariant
                pos + 1 <= j <= len,
                len == bytes@.len(),
            decreases len - j,
        {
            let after_key = match parse_bstring(bytes, j) {
                Ok((_, end)) => end,
                Err(e) => {
                    return Err(e);
                },
            };
            j = match skip_bvalue(bytes, after_key) {
                Ok(end) => end,
                Err(e) => {
                    return Err(e);
                },
            };
        }
        if j >= len {
            return Err(FromTrackerResponseError::InvalidResponse);
        }
        Ok(j + 1)
    } else {
        Err(FromTrackerResponseError::InvalidResponse)
    }
}

/// Reads one peer dictionary: its `ip` and `port` entries are kept, a
/// `peer id` is kept when present, anything else is walked over.  A peer
/// without both an address and a port is refused.
fn parse_peer(bytes: &[u8], pos: usize) -> (r: Result<
    (TrackerPeer, usize),
    FromTrackerResponseError,
>)
    ensures
        r matches Ok(v) ==> pos < v.1 <= bytes@.len(),
{
    let len = bytes.len();
    if pos >= len || bytes[pos] != 0x64 {
        return Err(FromTrackerResponseError::InvalidResponse);
    }
    let mut j: usize = pos + 1;
    let mut ip: Option<Vec<u8>> = None;
    let mut port: Option<u32> = None;
    let mut peer_id: Option<Vec<u8>> = None;
    while j < len && bytes[j] != 0x65
        invariant
            pos + 1 <= j <= len,
            len == bytes@.len(),
        decreases len - j,
    {
        let (key, after_key) = match parse_bstring(bytes, j) {
            Ok(v) => v,
            Err(e) => {
                return Err(e);
            },
        };
        if key.len() == 2 && key[0] == 0x69 && key[1] == 0x70 {
            // "ip"
            let (v, end) = match parse_bstring(bytes, after_key) {
                Ok(v) => v,
                Err(e) => {
                    return Err(e);
                },
            };
            ip = Some(v);
            j = end;
        } else if key.len() == 4 && key[0] == 0x70 && key[1] == 0x6f && key[2] == 0x72 && key[3]
            == 0x74 {
            // "port"
            if after_key >= len || bytes[after_key] != 0x69 {
                return Err(FromTrackerResponseError::InvalidResponse);
            }
            let (n, end) = match parse_number(bytes, after_key + 1) {
                Ok(v) => v,
                Err(e) => {
                    return Err(e);
                },
            };
            if end >= len || bytes[end] != 0x65 {
                return Err(FromTrackerResponseError::InvalidResponse);
            }
            port = Some(n as u32);
            j = end + 1;
        } else if key.len() == 7 && key[0] == 0x70 && key[1] == 0x65 && key[2] == 0x65 && key[3]
            == 0x72 && key[4] == 0x20 && key[5] == 0x69 && key[6] == 0x64 {
            // "peer id"
            let (v, end) = match parse_bstring(bytes, after_key) {
                Ok(v) => v,
                Err(e) => {
                    return Err(e);
                },
            };
            peer_id = Some(v);
            j = end;
        } else {
            j = match skip_bvalue(bytes, after_key) {
                Ok(end) => end,
                Err(e) => {
                    return Err(e);
                },
            };
        }
    }
    if j >= len {
        return Err(FromTrackerResponseError::InvalidResponse);
    }
    match (ip, port) {
        (Some(ip), Some(port)) => Ok((TrackerPeer { ip, port, peer_id }, j + 1)),
        _ => Err(FromTrackerResponseError::InvalidResponse),
    }
}

impl TrackerResponse {
    /// Reads a tracker's bencoded answer: the top-level dictionary's
    /// `interval` number and its `peers` list of peer dictionaries; other
    /// entries are walked over.
    pub fn from_bytes(bytes: &[u8]) -> (r: Result<TrackerResponse, FromTrackerResponseError>)
        ensures
            r matches Ok(_) ==> bytes@.len() >= 2 && bytes@[0] == 0x64,
    {
        let len = bytes.len();
        if len == 0 || bytes[0] != 0x64 {
            return Err(FromTrackerResponseError::InvalidResponse);
        }
        let mut j: usize = 1;
        let mut interval: u64 = 0;
        let mut peers: Vec<TrackerPeer> = Vec::new();
        while j < len && bytes[j] != 0x65
            invariant
                1 <= j <= len,
                len == bytes@.len(),
            decreases len - j,
        {
            let (key, after_key) = match parse_bstring(bytes, j) {
                Ok(v) => v,
                Err(e) => {
                    return Err(e);
                },
            };
            if key.len() == 8 && key[0] == 0x69 && key[1] == 0x6e && key[2] == 0x74 && key[3]
                == 0x65 && key[4] == 0x72 && key[5] == 0x76 && key[6] == 0x61 && key[7] == 0x6c {
                // "interval"
                if after_key >= len || bytes[after_key] != 0x69 {
                    return Err(FromTrackerResponseError::InvalidResponse);
                }
                let (n, end) = match parse_number(bytes, after_key + 1) {
                    Ok(v) => v,
                    Err(e) => {
                        return Err(e);
                    },
                };
                if end >= len || bytes[end] != 0x65 {
                    return Err(FromTrackerResponseError::InvalidResponse);
                }
                interval = n;
                j = end + 1;
            } else if key.len() == 5 && key[0] == 0x70 && key[1] == 0x65 && key[2] == 0x65
                && key[3] == 0x72 && key[4] == 0x73 {
                // "peers"
                if after_key >= len || bytes[after_key] != 0x6c {
                    return Err(FromTrackerResponseError::InvalidResponse);
                }
                let mut k: usize = after_key + 1;
                while k < len && bytes[k] != 0x65
                    invariant
                        after_key + 1 <= k <= len,
                        j < after_key,
                        len == bytes@.len(),
                    decreases len - k,
                {
                    let (peer, end) = match parse_peer(bytes, k) {
                        Ok(v) => v,
                        Err(e) => {
                            return Err(e);
                        },
                    };
                    peers.push(peer);
                    k = end;
                }
                if k >= len {
                    return Err(FromTrackerResponseError::InvalidResponse);
                }
                j = k + 1;
            } else {
                j = match skip_bvalue(bytes, after_key) {
                    Ok(end) => end,
                    Err(e) => {
                        return Err(e);
                    },
                };
            }
        }
        if j >= len {
            return Err(FromTrackerResponseError::InvalidResponse);
        }
        Ok(TrackerResponse { interval, peers })
    }
}

/// Error returned by the tracker boundary: either the announce URL or the
/// response could not be read.
#[derive(Debug, Clone, Copy, PartialEq, Eq, Structural)]
pub enum TrackerHandlerError {
    UrlParseError(TrackerUrlError),
    FromTrackerResponseError(FromTrackerResponseError),
}

/// The per-torrent tracker client state: the announce URL taken apart, and
/// what an announce for this torrent says about us.
#[derive(Debug, Clone)]
pub struct TrackerHandler {
    pub tracker_url: TrackerUrl,
    pub info_hash: Vec<u8>,
    pub total_length: u64,
    pub client_port: u32,
}

impl TrackerHandler {
    /// Builds a tracker handler for one torrent: takes the announce URL
    /// apart and keeps what every announce needs.  Fails exactly when the
    /// URL does, with that error.
    pub fn new(announce_url: &[u8], info_hash: Vec<u8>, total_length: u64, client_port: u32) -> (r:
        Result<TrackerHandler, TrackerHandlerError>)
        ensures
            match r {
                Ok(h) => {
                    &&& h.tracker_url.spec_parsed_from(announce_url@)
                    &&& h.info_hash == info_hash
                    &&& h.total_length == total_length
                    &&& h.client_port == client_port
                },
                Err(e) => e is UrlParseError,
            },
            spec_url_wellformed(announce_url@) ==> r is Ok,
    {
        match TrackerUrl::parse(announce_url) {
            Ok(tracker_url) => Ok(TrackerHandler { tracker_url, info_hash, total_length, client_port }),
            Err(e) => Err(TrackerHandlerError::UrlParseError(e)),
        }
    }

    /// Turns the response bytes read from this tracker into its peer list.
    /// The caller performs the HTTP(S) exchange itself and hands the body
    /// here.
    pub fn get_peers_list(&self, response: &[u8]) -> (r: Result<
        TrackerResponse,
        TrackerHandlerError,
    >)
        ensures
            r matches Err(e) ==> e is FromTrackerResponseError,
    {
        match TrackerResponse::from_bytes(response) {
            Ok(resp) => Ok(resp),
            Err(e) => Err(TrackerHandlerError::FromTrackerResponseError(e)),
        }
    }
}

} // verus!
