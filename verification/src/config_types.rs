use vstd::prelude::*;

use crate::addr::{digit_val, digits_value};
use crate::text::str_to_chars;

verus! {

/// The code point of `c`, with ASCII capital letters folded to lower case.
pub open spec fn lower_code(c: char) -> u32 {
    if 65 <= c as u32 && c as u32 <= 90 {
        (c as u32 + 32) as u32
    } else {
        c as u32
    }
}

/// Character sequences that are equal up to ASCII case.
pub open spec fn eq_ignore_case(a: Seq<char>, b: Seq<char>) -> bool {
    a.len() == b.len() && forall|i: int| 0 <= i < a.len() ==> lower_code(a[i]) == lower_code(b[i])
}

fn lower_code_exec(c: char) -> (r: u32)
    ensures
        r == lower_code(c),
{
    let u = c as u32;
    if 65 <= u && u <= 90 {
        u + 32
    } else {
        u
    }
}

/// Whether `v` matches the keyword `kw` up to ASCII case.
fn chars_match_keyword(v: &Vec<char>, kw: &str) -> (r: bool)
    ensures
        r == eq_ignore_case(v@, kw@),
{
    let n = kw.unicode_len();
    if v.len() != n {
        return false;
    }
    let mut i: usize = 0;
    while i < n
        invariant
            n == kw@.len(),
            v@.len() == n,
            i <= n,
            forall|j: int| 0 <= j < i ==> lower_code(v@[j]) == lower_code(kw@[j]),
        decreases n - i,
    {
        if lower_code_exec(v[i]) != lower_code_exec(kw.get_char(i)) {
            return false;
        }
        i = i + 1;
    }
    true
}

/// The socket type a configuration value names, if any: `tcp`/`stream`
/// and `udp`/`dgram`, in any ASCII case.
pub open spec fn socket_type_of(s: Seq<char>) -> Option<SocketType> {
    if eq_ignore_case(s, "tcp"@) || eq_ignore_case(s, "stream"@) {
        Some(SocketType::Tcp)
    } else if eq_ignore_case(s, "udp"@) || eq_ignore_case(s, "dgram"@) {
        Some(SocketType::Udp)
    } else {
        None
    }
}

/// The inet type a configuration value names, if any: `ipv4` or `ipv6`,
/// in any ASCII case.
pub open spec fn inet_type_of(s: Seq<char>) -> Option<InetType> {
    if eq_ignore_case(s, "ipv4"@) {
        Some(InetType::Ipv4)
    } else if eq_ignore_case(s, "ipv6"@) {
        Some(InetType::Ipv6)
    } else {
        None
    }
}

/// A non-empty run of decimal digits and nothing else.
pub open spec fn all_digits(s: Seq<char>) -> bool {
    s.len() > 0 && forall|i: int| 0 <= i < s.len() ==> crate::addr::is_digit(s[i])
}

proof fn lemma_digits_value_nonneg(s: Seq<char>, i: int, j: int)
    requires
        forall|k: int| i <= k < j ==> crate::addr::is_digit(s[k]),
    ensures
        digits_value(s, i, j) >= 0,
    decreases j - i,
{
    if i < j {
        lemma_digits_value_nonneg(s, i, j - 1);
    }
}

proof fn lemma_digits_value_mono(s: Seq<char>, i: int, j: int, k: int)
    requires
        i <= j <= k,
        forall|m: int| i <= m < k ==> crate::addr::is_digit(s[m]),
    ensures
        digits_value(s, i, j) <= digits_value(s, i, k),
    decreases k - j,
{
    if j < k {
        lemma_digits_value_nonneg(s, i, k - 1);
        lemma_digits_value_mono(s, i, j, k - 1);
    }
}

/// A decimal value read as `u32`: all digits, in range. The failure
/// message tells malformed text from a value too large.
pub open spec fn spec_parse_u32(s: Seq<char>) -> Result<u32, Seq<char>> {
    if !all_digits(s) {
        Err("invalid digit"@)
    } else if digits_value(s, 0, s.len() as int) > u32::MAX {
        Err("out of range"@)
    } else {
        Ok(digits_value(s, 0, s.len() as int) as u32)
    }
}

/// A decimal port number: all digits, and between 1 and 65535.
pub open spec fn spec_parse_port(s: Seq<char>) -> Result<u16, Seq<char>> {
    if !all_digits(s) {
        Err("invalid digit"@)
    } else if !(1 <= digits_value(s, 0, s.len() as int) <= 65535) {
        Err("out of range"@)
    } else {
        Ok(digits_value(s, 0, s.len() as int) as u16)
    }
}

/// Law: a port number written in decimal reads back as itself.
pub proof fn lemma_port_text_reads_back(p: u16)
    requires
        p >= 1,
    ensures
        spec_parse_port(crate::text::dec_digits(p as int)) == Ok::<u16, Seq<char>>(p),
{
    crate::addr::lemma_dec_digits_shape(p as int);
}

/// Law: a uid written in decimal reads back as itself.
pub proof fn lemma_u32_text_reads_back(u: u32)
    ensures
        spec_parse_u32(crate::text::dec_digits(u as int)) == Ok::<u32, Seq<char>>(u),
{
    crate::addr::lemma_dec_digits_shape(u as int);
}

/// The keyword a socket type prints as.
pub open spec fn socket_type_text(t: SocketType) -> Seq<char> {
    match t {
        SocketType::Tcp => "tcp"@,
        SocketType::Udp => "udp"@,
    }
}

/// The keyword an inet type prints as.
pub open spec fn inet_type_text(t: InetType) -> Seq<char> {
    match t {
        InetType::Ipv4 => "ipv4"@,
        InetType::Ipv6 => "ipv6"@,
    }
}

/// Law: the keyword a socket type prints as reads back as that type.
pub proof fn lemma_socket_type_reads_back(t: SocketType)
    ensures
        socket_type_of(socket_type_text(t)) == Some(t),
{
    reveal_strlit("tcp");
    reveal_strlit("stream");
    reveal_strlit("udp");
    reveal_strlit("dgram");
    if t is Udp {
        assert(!eq_ignore_case("udp"@, "tcp"@)) by {
            assert(lower_code("udp"@[0]) != lower_code("tcp"@[0]));
        }
    }
}

/// Law: the keyword an inet type prints as reads back as that type.
pub proof fn lemma_inet_type_reads_back(t: InetType)
    ensures
        inet_type_of(inet_type_text(t)) == Some(t),
{
    reveal_strlit("ipv4");
    reveal_strlit("ipv6");
    if t is Ipv6 {
        assert(!eq_ignore_case("ipv6"@, "ipv4"@)) by {
            assert(lower_code("ipv6"@[3]) != lower_code("ipv4"@[3]));
        }
    }
}

/// The value of the digits `v[0..len]`, or None where it passes `cap`.
fn decimal_value_capped(v: &Vec<char>, cap: u64) -> (r: Option<u64>)
    requires
        all_digits(v@),
        cap <= u32::MAX,
    ensures
        match r {
            Some(x) => x == digits_value(v@, 0, v@.len() as int) && x <= cap,
            None => digits_value(v@, 0, v@.len() as int) > cap,
        },
{
    let n = v.len();
    let mut acc: u64 = 0;
    let mut k: usize = 0;
    while k < n
        invariant
            k <= n == v@.len(),
            all_digits(v@),
            cap <= u32::MAX,
            acc == digits_value(v@, 0, k as int),
            acc <= cap,
        decreases n - k,
    {
        let d = (v[k] as u32 - 48) as u64;
        assert(digits_value(v@, 0, k + 1) == digits_value(v@, 0, k as int) * 10 + digit_val(
            v@[k as int],
        ));
        acc = acc * 10 + d;
        k = k + 1;
        if acc > cap {
            proof {
                lemma_digits_value_mono(v@, 0, k as int, v@.len() as int);
            }
            return None;
        }
    }
    Some(acc)
}

/// Parses a decimal `u32` value, as the `uid` option wants one.
pub fn parse_u32_value(s: &str) -> (r: Result<u32, &'static str>)
    ensures
        match spec_parse_u32(s@) {
            Ok(x) => r == Ok::<u32, &'static str>(x),
            Err(m) => r matches Err(e) && e@ == m,
        },
{
    let v = str_to_chars(s);
    if v.len() == 0 {
        return Err("invalid digit");
    }
    let mut k: usize = 0;
    let n = v.len();
    while k < n
        invariant
            v@ == s@,
            k <= n == v@.len(),
            forall|i: int| 0 <= i < k ==> crate::addr::is_digit(v@[i]),
        decreases n - k,
    {
        let u = v[k] as u32;
        if !(48 <= u && u <= 57) {
            return Err("invalid digit");
        }
        k = k + 1;
    }
    match decimal_value_capped(&v, u32::MAX as u64) {
        Some(x) => Ok(x as u32),
        None => Err("out of range"),
    }
}

/// Parses a decimal port number in `[1, 65535]`.
pub fn parse_port_value(s: &str) -> (r: Result<u16, &'static str>)
    ensures
        match spec_parse_port(s@) {
            Ok(x) => r == Ok::<u16, &'static str>(x),
            Err(m) => r matches Err(e) && e@ == m,
        },
{
    let v = str_to_chars(s);
    if v.len() == 0 {
        return Err("invalid digit");
    }
    let mut k: usize = 0;
    let n = v.len();
    while k < n
        invariant
            v@ == s@,
            k <= n == v@.len(),
            forall|i: int| 0 <= i < k ==> crate::addr::is_digit(v@[i]),
        decreases n - k,
    {
        let u = v[k] as u32;
        if !(48 <= u && u <= 57) {
            return Err("invalid digit");
        }
        k = k + 1;
    }
    match decimal_value_capped(&v, 65535) {
        Some(x) => {
            if x == 0 {
                Err("out of range")
            } else {
                Ok(x as u16)
            }
        },
        None => Err("out of range"),
    }
}

/// A program's argument list, as split from one configuration value.
#[derive(Debug, Clone, PartialEq, Eq, Default)]
pub struct ProgArgs(pub Vec<String>);

/// What `shlex::split` returns for a given character sequence: POSIX
/// shell word-splitting, a function of the characters alone.
pub uninterp spec fn shell_split(s: Seq<char>) -> Option<Seq<Seq<char>>>;

/// Relies on shlex::split: it splits a string by POSIX shell rules and
/// returns None exactly when quoting in the input is erroneous.
#[verifier::external_body]
fn shlex_split(s: &str) -> (r: Option<Vec<String>>)
    ensures
        r.deep_view() == shell_split(s@),
{
    shlex::split(s)
}

/// What `shlex::try_join` returns for given arguments: one line that
/// shell splitting reads back as those arguments, a function of the
/// arguments alone; nothing where an argument cannot be quoted.
pub uninterp spec fn shell_join(args: Seq<Seq<char>>) -> Option<Seq<char>>;

/// Relies on shlex::try_join: it quotes and joins the arguments, and
/// fails exactly where one holds a NUL character.
#[verifier::external_body]
fn shlex_join(args: &Vec<String>) -> (r: Option<String>)
    ensures
        r.deep_view() == shell_join(args.deep_view()),
{
    shlex::try_join(args.iter().map(|s| s.as_str())).ok()
}

impl ProgArgs {
    /// Writes the arguments as one shell line, where quoting allows it.
    pub fn to_shell_text(&self) -> (r: Option<String>)
        ensures
            match shell_join(self.0.deep_view()) {
                Some(t) => r matches Some(s) && s@ == t,
                None => r is None,
            },
    {
        shlex_join(&self.0)
    }

    /// Splits a raw configuration value into arguments by shell rules.
    pub fn from_str(s: &str) -> (r: Result<ProgArgs, &'static str>)
        ensures
            match shell_split(s@) {
                Some(args) => r matches Ok(p) && p.0.deep_view() == args,
                None => r matches Err(m) && m@ == "Invalid shell escaped string"@,
            },
    {
        match shlex_split(s) {
            Some(args) => Ok(ProgArgs(args)),
            None => Err("Invalid shell escaped string"),
        }
    }
}

/// The transport of a service's listening socket.
#[derive(Debug, Clone, Copy, PartialEq, Eq, Structural)]
pub enum SocketType {
    /// "stream"
    Tcp,
    /// "dgram"
    Udp,
}

impl SocketType {
    /// Parses `tcp`/`stream`/`udp`/`dgram` in any ASCII case.
    pub fn from_str(s: &str) -> (r: Result<SocketType, &'static str>)
        ensures
            match socket_type_of(s@) {
                Some(t) => r == Ok::<SocketType, &'static str>(t),
                None => r matches Err(m) && m@ == "Invalid input: must be tcp|udp (or aliases stream|dgram)"@,
            },
    {
        let v = str_to_chars(s);
        if chars_match_keyword(&v, "tcp") || chars_match_keyword(&v, "stream") {
            Ok(SocketType::Tcp)
        } else if chars_match_keyword(&v, "udp") || chars_match_keyword(&v, "dgram") {
            Ok(SocketType::Udp)
        } else {
            Err("Invalid input: must be tcp|udp (or aliases stream|dgram)")
        }
    }
}

/// The address family a service listens on.
#[derive(Debug, Clone, Copy, PartialEq, Eq, Structural)]
pub enum InetType {
    /// IPv4
    Ipv4,
    /// IPv6
    Ipv6,
}

impl InetType {
    /// Parses `ipv4` or `ipv6` in any ASCII case.
    pub fn from_str(s: &str) -> (r: Result<InetType, &'static str>)
        ensures
            match inet_type_of(s@) {
                Some(t) => r == Ok::<InetType, &'static str>(t),
                None => r matches Err(m) && m@ == "Invalid input: must be ipv4|ipv6"@,
            },
    {
        let v = str_to_chars(s);
        if chars_match_keyword(&v, "ipv4") {
            Ok(InetType::Ipv4)
        } else if chars_match_keyword(&v, "ipv6") {
            Ok(InetType::Ipv6)
        } else {
            Err("Invalid input: must be ipv4|ipv6")
        }
    }

    /// The name of the family, as diagnostics print it.
    pub fn as_text(&self) -> (r: &'static str)
        ensures
            match self {
                InetType::Ipv4 => r@ == "IPv4"@,
                InetType::Ipv6 => r@ == "IPv6"@,
            },
    {
        match self {
            InetType::Ipv4 => "IPv4",
            InetType::Ipv6 => "IPv6",
        }
    }
}

} // verus!
