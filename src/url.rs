use vstd::prelude::*;
use vstd::string::StrSliceExecFns;

verus! {

/// Why a server address cannot be split into host and port.
#[derive(Debug, Clone, Copy, PartialEq, Eq, Structural)]
pub enum UrlError {
    /// There is no `:` before a port.
    MissingPort,
    /// What follows the last `:` is not a port number.
    InvalidPort,
}

/// The scheme prefix that a server URL may carry.
pub open spec fn scheme() -> Seq<char> {
    seq!['q', 'u', 'i', 'c', ':', '/', '/']
}

/// The address part of a URL: without its `quic://` prefix, if it has one.
pub open spec fn spec_strip_scheme(s: Seq<char>) -> Seq<char> {
    if s.len() >= 7 && s.take(7) == scheme() {
        s.skip(7)
    } else {
        s
    }
}

/// The position of the last `c` in `s`, or -1 when there is none.
pub open spec fn last_index_of(s: Seq<char>, c: char) -> int
    decreases s.len(),
{
    if s.len() == 0 {
        -1
    } else if s.last() == c {
        s.len() - 1
    } else {
        last_index_of(s.drop_last(), c)
    }
}

/// Whether `c` is an ASCII decimal digit.
pub open spec fn is_digit(c: char) -> bool {
    '0' <= c && c <= '9'
}

/// The value of a string of decimal digits.
pub open spec fn digits_value(s: Seq<char>) -> nat
    decreases s.len(),
{
    if s.len() == 0 {
        0
    } else {
        digits_value(s.drop_last()) * 10 + ((s.last() as u32) - ('0' as u32)) as nat
    }
}

/// Whether every character of `d` is a decimal digit.
pub open spec fn all_digits(d: Seq<char>) -> bool {
    forall|i: int| 0 <= i < d.len() ==> is_digit(#[trigger] d[i])
}

/// The digits of a port number: without a leading `+`, if there is one.
pub open spec fn port_digits(s: Seq<char>) -> Seq<char> {
    if s.len() > 0 && s[0] == '+' {
        s.skip(1)
    } else {
        s
    }
}

/// A port number in decimal, with an optional leading `+`, as Rust's integer
/// parsing reads it.
pub open spec fn spec_port(s: Seq<char>) -> Option<u16> {
    let d = port_digits(s);
    if d.len() > 0 && all_digits(d) && digits_value(d) <= u16::MAX {
        Some(digits_value(d) as u16)
    } else {
        None
    }
}

/// A `host:port` address split at its last `:`.
pub open spec fn spec_split_host_port(s: Seq<char>) -> Result<(Seq<char>, u16), UrlError> {
    let c = last_index_of(s, ':');
    if c < 0 {
        Err(UrlError::MissingPort)
    } else {
        match spec_port(s.skip(c + 1)) {
            Some(p) => Ok((s.take(c), p)),
            None => Err(UrlError::InvalidPort),
        }
    }
}

/// The address part of a server URL: `quic://host:port` and `host:port` both
/// give `host:port`.
pub fn strip_scheme(url: &str) -> (r: &str)
    ensures
        r@ == spec_strip_scheme(url@),
{
    let n = url.unicode_len();
    if n < 7 {
        return url;
    }
    let prefix = ['q', 'u', 'i', 'c', ':', '/', '/'];
    assert(prefix@ =~= scheme());
    let mut i: usize = 0;
    while i < 7
        invariant
            n == url@.len(),
            n >= 7,
            i <= 7,
            prefix@ == scheme(),
            url@.take(i as int) == scheme().take(i as int),
        decreases 7 - i,
    {
        if url.get_char(i) != prefix[i] {
            assert(url@.take(7)[i as int] != scheme()[i as int]);
            return url;
        }
        assert(url@.take(i + 1) =~= url@.take(i as int).push(url@[i as int]));
        assert(scheme().take(i + 1) =~= scheme().take(i as int).push(scheme()[i as int]));
        i = i + 1;
    }
    assert(scheme().take(7) =~= scheme());
    let r = url.substring_char(7, n);
    assert(r@ =~= url@.skip(7));
    r
}

proof fn lemma_last_index_unique(s: Seq<char>, c: char, k: int)
    requires
        -1 <= k < s.len(),
        k >= 0 ==> s[k] == c,
        forall|j: int| k < j < s.len() ==> s[j] != c,
    ensures
        last_index_of(s, c) == k,
    decreases s.len(),
{
    if s.len() > 0 && s.last() != c {
        assert(k < s.len() - 1);
        lemma_last_index_unique(s.drop_last(), c, k);
    }
}

/// Parses a port number: decimal digits with an optional leading `+`, at
/// most 65535.
pub fn parse_port(s: &str) -> (r: Option<u16>)
    ensures
        r == spec_port(s@),
{
    let n = s.unicode_len();
    let mut start: usize = 0;
    if n > 0 && s.get_char(0) == '+' {
        start = 1;
    }
    let ghost d = port_digits(s@);
    assert(d =~= s@.skip(start as int));
    if start == n {
        return None;
    }
    let mut value: u32 = 0;
    let mut i: usize = start;
    while i < n
        invariant
            n == s@.len(),
            start <= i <= n,
            d == s@.skip(start as int),
            d == port_digits(s@),
            forall|j: int| 0 <= j < i - start ==> is_digit(#[trigger] d[j]),
            value as nat == if digits_value(d.take(i - start)) < 65536 {
                digits_value(d.take(i - start))
            } else {
                65536
            },
        decreases n - i,
    {
        let c = s.get_char(i);
        assert(d[i - start] == s@[i as int]);
        if c < '0' || c > '9' {
            assert(!is_digit(d[i - start]));
            assert(!all_digits(d));
            return None;
        }
        let digit = (c as u32) - ('0' as u32);
        assert(d.take(i - start + 1).drop_last() =~= d.take(i - start));
        let next = value * 10 + digit;
        value = if next < 65536 {
            next
        } else {
            65536
        };
        i = i + 1;
    }
    assert(d.take(n - start) =~= d);
    if value <= 65535 {
        Some(value as u16)
    } else {
        None
    }
}

/// Splits a `host:port` address at its last `:`.
pub fn split_host_port(addr: &str) -> (r: Result<(&str, u16), UrlError>)
    ensures
        match (r, spec_split_host_port(addr@)) {
            (Ok((h, p)), Ok((sh, sp))) => h@ == sh && p == sp,
            (Err(e), Err(se)) => e == se,
            _ => false,
        },
{
    let n = addr.unicode_len();
    let mut k: usize = n;
    while k > 0
        invariant
            n == addr@.len(),
            k <= n,
            forall|j: int| k <= j < n ==> addr@[j] != ':',
        ensures
            k <= n,
            k == 0 || addr@[k - 1] == ':',
            forall|j: int| k <= j < n ==> addr@[j] != ':',
        decreases k,
    {
        if addr.get_char(k - 1) == ':' {
            break;
        }
        k = k - 1;
    }
    proof {
        lemma_last_index_unique(addr@, ':', k - 1);
    }
    if k == 0 {
        return Err(UrlError::MissingPort);
    }
    let host = addr.substring_char(0, k - 1);
    let port_text = addr.substring_char(k, n);
    assert(port_text@ =~= addr@.skip(k as int));
    assert(host@ =~= addr@.take(k - 1));
    match parse_port(port_text) {
        Some(port) => Ok((host, port)),
        None => Err(UrlError::InvalidPort),
    }
}

} // verus!
