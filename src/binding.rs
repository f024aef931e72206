//! Binding strings: `sock://<path>` or `tcp://<host>:<port>`.
use vstd::prelude::*;
use crate::host::{is_host, valid_host};

verus! {

/// True for the ASCII digits `0` to `9`.
pub open spec fn is_digit(c: char) -> bool {
    '0' <= c && c <= '9'
}

/// The value of one ASCII digit.
pub open spec fn digit_value(c: char) -> nat {
    ((c as u32) - ('0' as u32)) as nat
}

/// The ASCII digit for a value below ten.
pub open spec fn digit_char(n: nat) -> char {
    if n == 0 { '0' }
    else if n == 1 { '1' }
    else if n == 2 { '2' }
    else if n == 3 { '3' }
    else if n == 4 { '4' }
    else if n == 5 { '5' }
    else if n == 6 { '6' }
    else if n == 7 { '7' }
    else if n == 8 { '8' }
    else { '9' }
}

/// The number that a sequence of decimal digits denotes.
pub open spec fn decimal_value(d: Seq<char>) -> nat
    decreases d.len(),
{
    if d.len() == 0 {
        0
    } else {
        decimal_value(d.drop_last()) * 10 + digit_value(d.last())
    }
}

/// The shortest decimal text of `n`.
pub open spec fn decimal_text(n: nat) -> Seq<char>
    decreases n,
{
    if n < 10 {
        seq![digit_char(n)]
    } else {
        decimal_text(n / 10).push(digit_char(n % 10))
    }
}

/// Ten to the power `n`.
pub open spec fn pow10(n: nat) -> nat
    decreases n,
{
    if n == 0 {
        1
    } else {
        10 * pow10((n - 1) as nat)
    }
}

/// A port: one to five decimal digits whose value fits in 16 bits.
pub open spec fn valid_port(d: Seq<char>) -> bool {
    &&& 1 <= d.len() <= 5
    &&& forall|k: int| 0 <= k < d.len() ==> is_digit(#[trigger] d[k])
    &&& decimal_value(d) <= 65535
}

/// `i` is the position of the first `:` of `s`, which ends the scheme.
pub open spec fn is_scheme_end(s: Seq<char>, i: int) -> bool {
    &&& 0 <= i < s.len()
    &&& s[i] == ':'
    &&& forall|j: int| 0 <= j < i ==> #[trigger] s[j] != ':'
}

/// `i` is the position of the last `:` of `p`, which comes before the port.
pub open spec fn is_port_separator(p: Seq<char>, i: int) -> bool {
    &&& 0 <= i < p.len()
    &&& p[i] == ':'
    &&& forall|j: int| i < j < p.len() ==> #[trigger] p[j] != ':'
}

/// What follows the scheme: the text after its `:`, without a leading `//`.
/// A socket path is this text as written: it is not percent-decoded, and a
/// `sock://host/p` binding names the path `host/p`.
pub open spec fn payload(s: Seq<char>) -> Option<Seq<char>> {
    if exists|i: int| is_scheme_end(s, i) {
        let i = choose|i: int| is_scheme_end(s, i);
        let rest = s.subrange(i + 1, s.len() as int);
        if rest.len() >= 2 && rest[0] == '/' && rest[1] == '/' {
            Some(rest.subrange(2, rest.len() as int))
        } else {
            Some(rest)
        }
    } else {
        None
    }
}

/// The host and port that a `host:port` text denotes, if it is well formed.
pub open spec fn address_of(p: Seq<char>) -> Option<(Seq<char>, u16)> {
    if exists|i: int| is_port_separator(p, i) {
        let i = choose|i: int| is_port_separator(p, i);
        let h = p.subrange(0, i);
        let d = p.subrange(i + 1, p.len() as int);
        if valid_host(h) && valid_port(d) {
            Some((h, decimal_value(d) as u16))
        } else {
            None
        }
    } else {
        None
    }
}

/// A binding as a mathematical value.
pub enum BindingView {
    Unix(Seq<char>),
    Tcp(Seq<char>, u16),
}

/// What parsing a binding string comes to.
pub enum ParseOutcome {
    Parsed(BindingView),
    BadUrl,
    BadAddress(Seq<char>),
    BadScheme(Seq<char>),
}

/// The outcome of parsing `s`, whose scheme (lower-cased) is `scheme`.
pub open spec fn binding_of(scheme: Seq<char>, s: Seq<char>) -> ParseOutcome {
    if scheme == seq!['s', 'o', 'c', 'k'] {
        match payload(s) {
            Some(p) => ParseOutcome::Parsed(BindingView::Unix(p)),
            None => ParseOutcome::BadAddress(s),
        }
    } else if scheme == seq!['t', 'c', 'p'] || scheme == seq!['t', 'c', 'p', '4'] || scheme == seq![
        't',
        'c',
        'p',
        '6',
    ] {
        match payload(s) {
            Some(p) => match address_of(p) {
                Some(a) => ParseOutcome::Parsed(BindingView::Tcp(a.0, a.1)),
                None => ParseOutcome::BadAddress(p),
            },
            None => ParseOutcome::BadAddress(s),
        }
    } else {
        ParseOutcome::BadScheme(scheme)
    }
}

/// The text of a binding: `sock://<path>` or `tcp://<host>:<port>`.
pub open spec fn binding_text(b: BindingView) -> Seq<char> {
    match b {
        BindingView::Unix(p) => seq!['s', 'o', 'c', 'k', ':', '/', '/'] + p,
        BindingView::Tcp(h, port) => seq!['t', 'c', 'p', ':', '/', '/'] + h + seq![':']
            + decimal_text(port as nat),
    }
}

/// The scheme that `binding_text` writes.
pub open spec fn binding_scheme(b: BindingView) -> Seq<char> {
    match b {
        BindingView::Unix(_) => seq!['s', 'o', 'c', 'k'],
        BindingView::Tcp(_, _) => seq!['t', 'c', 'p'],
    }
}

/// A binding that has a text: a network host must be well formed.
pub open spec fn valid_binding(b: BindingView) -> bool {
    match b {
        BindingView::Unix(_) => true,
        BindingView::Tcp(h, _) => valid_host(h),
    }
}

proof fn lemma_digit_char(n: nat)
    requires
        n < 10,
    ensures
        is_digit(digit_char(n)),
        digit_value(digit_char(n)) == n,
{
}

proof fn lemma_decimal_text(n: nat)
    ensures
        1 <= decimal_text(n).len(),
        n < pow10(decimal_text(n).len()),
        pow10((decimal_text(n).len() - 1) as nat) <= n || n == 0,
        forall|k: int| 0 <= k < decimal_text(n).len() ==> is_digit(#[trigger] decimal_text(n)[k]),
        decimal_value(decimal_text(n)) == n,
    decreases n,
{
    if n < 10 {
        lemma_digit_char(n);
        reveal_with_fuel(decimal_value, 2);
        reveal_with_fuel(pow10, 2);
    } else {
        lemma_decimal_text(n / 10);
        lemma_digit_char(n % 10);
        let t = decimal_text(n / 10);
        assert(decimal_text(n).drop_last() =~= t);
        let m = t.len();
        assert(pow10(m + 1) == 10 * pow10(m));
        assert(n < pow10(m + 1)) by (nonlinear_arith)
            requires
                n / 10 < pow10(m),
                pow10(m + 1) == 10 * pow10(m),
        ;
        assert(pow10(m) == 10 * pow10((m - 1) as nat));
        assert(pow10(m) <= n) by (nonlinear_arith)
            requires
                pow10((m - 1) as nat) <= n / 10,
                pow10(m) == 10 * pow10((m - 1) as nat),
        ;
    }
}

proof fn lemma_pow10_monotone(a: nat, b: nat)
    requires
        a <= b,
    ensures
        pow10(a) <= pow10(b),
    decreases b,
{
    if a < b {
        lemma_pow10_monotone(a, (b - 1) as nat);
    }
}

proof fn lemma_port_text(n: u16)
    ensures
        valid_port(decimal_text(n as nat)),
        decimal_value(decimal_text(n as nat)) == n,
        forall|k: int|
            0 <= k < decimal_text(n as nat).len() ==> #[trigger] decimal_text(n as nat)[k] != ':',
{
    lemma_decimal_text(n as nat);
    let len = decimal_text(n as nat).len();
    if len > 5 {
        lemma_pow10_monotone(5, (len - 1) as nat);
        reveal_with_fuel(pow10, 6);
    }
}

/// `s` starts with a scheme in lower case, which ends at `i`: a letter, then
/// letters, digits, `+`, `-` or `.`, then `:`.
pub open spec fn plain_scheme_end(s: Seq<char>, i: int) -> bool {
    &&& 0 < i < s.len()
    &&& s[i] == ':'
    &&& 'a' <= s[0] && s[0] <= 'z'
    &&& forall|j: int|
        0 <= j < i ==> {
            let c = #[trigger] s[j];
            ('a' <= c && c <= 'z') || is_digit(c) || c == '+' || c == '-' || c == '.'
        }
}

/// The scheme that the URL parser finds in `s`, lower-cased.
pub uninterp spec fn url_scheme(s: Seq<char>) -> Seq<char>;

/// Whether the URL parser accepts `s` as an absolute URL.
pub uninterp spec fn url_accepts(s: Seq<char>) -> bool;

#[verifier::external_type_specification]
#[verifier::external_body]
pub struct ExUrlParseError(url::ParseError);

/// Relies on `url::Url::parse` to tell a well-formed URL, and on
/// `url::Url::scheme` for its scheme, lower-cased. A text that starts with a
/// lower-case scheme and its `:` has that scheme: the parser trims only
/// leading spaces and control characters, and reads the scheme up to the
/// first `:`.
#[verifier::external_body]
fn parse_url_scheme(s: &str) -> (r: Result<String, url::ParseError>)
    ensures
        r is Ok <==> url_accepts(s@),
        r matches Ok(scheme) ==> scheme@ == url_scheme(s@),
        forall|i: int|
            plain_scheme_end(s@, i) ==> (r matches Ok(scheme) ==> scheme@ == s@.subrange(0, i)),
{
    url::Url::parse(s).map(|u| u.scheme().to_string())
}

/// The text of one decimal digit.
fn digit_text(d: u16) -> (r: &'static str)
    requires
        d < 10,
    ensures
        r@ == seq![digit_char(d as nat)],
{
    proof {
        reveal_strlit("0");
        reveal_strlit("1");
        reveal_strlit("2");
        reveal_strlit("3");
        reveal_strlit("4");
        reveal_strlit("5");
        reveal_strlit("6");
        reveal_strlit("7");
        reveal_strlit("8");
        reveal_strlit("9");
    }
    let r = if d == 0 {
        "0"
    } else if d == 1 {
        "1"
    } else if d == 2 {
        "2"
    } else if d == 3 {
        "3"
    } else if d == 4 {
        "4"
    } else if d == 5 {
        "5"
    } else if d == 6 {
        "6"
    } else if d == 7 {
        "7"
    } else if d == 8 {
        "8"
    } else {
        "9"
    };
    assert(r@ =~= seq![digit_char(d as nat)]);
    r
}

/// The shortest decimal text of `n`.
fn port_text(n: u16) -> (r: String)
    ensures
        r@ == decimal_text(n as nat),
    decreases n,
{
    if n < 10 {
        String::from_str(digit_text(n))
    } else {
        let head = port_text(n / 10);
        head.concat(digit_text(n % 10))
    }
}

/// A network address: a host name or literal and a port.
#[derive(Clone, Debug)]
pub struct NetAddress {
    pub host: String,
    pub port: u16,
}

/// Where the daemon listens and the client connects.
#[derive(Clone, Debug)]
pub enum Binding {
    /// A filesystem socket at this path.
    Unix(String),
    /// A network address.
    Tcp(NetAddress),
}

impl View for Binding {
    type V = BindingView;

    open spec fn view(&self) -> BindingView {
        match self {
            Binding::Unix(p) => BindingView::Unix(p@),
            Binding::Tcp(a) => BindingView::Tcp(a.host@, a.port),
        }
    }
}

/// Why a binding string was refused.
#[derive(Debug)]
pub enum ParseBindingError {
    /// The text is not a well-formed URL.
    InvalidUrl(url::ParseError),
    /// A `tcp` binding whose remainder is not `host:port`; holds that remainder.
    InvalidAddress(String),
    /// A scheme other than `sock`, `tcp`, `tcp4` and `tcp6`; holds the scheme.
    UnknownScheme(String),
}

/// The outcome that a parse result stands for.
pub open spec fn outcome_of(r: Result<Binding, ParseBindingError>) -> ParseOutcome {
    match r {
        Ok(b) => ParseOutcome::Parsed(b@),
        Err(ParseBindingError::InvalidUrl(_)) => ParseOutcome::BadUrl,
        Err(ParseBindingError::InvalidAddress(p)) => ParseOutcome::BadAddress(p@),
        Err(ParseBindingError::UnknownScheme(s)) => ParseOutcome::BadScheme(s@),
    }
}

/// Whether `s` is exactly the text `lit`.
fn text_is(s: &str, lit: &str) -> (r: bool)
    ensures
        r == (s@ == lit@),
{
    let n = s.unicode_len();
    if n != lit.unicode_len() {
        return false;
    }
    let mut i: usize = 0;
    while i < n
        invariant
            n == s@.len(),
            n == lit@.len(),
            i <= n,
            forall|k: int| 0 <= k < i ==> s@[k] == lit@[k],
        decreases n - i,
    {
        if s.get_char(i) != lit.get_char(i) {
            return false;
        }
        i = i + 1;
    }
    assert(s@ =~= lit@);
    true
}

/// The text after the scheme of `s`, without a leading `//`.
fn payload_text(s: &str) -> (r: Option<&str>)
    ensures
        match r {
            Some(p) => payload(s@) == Some(p@),
            None => payload(s@) is None,
        },
{
    let n = s.unicode_len();
    let mut i: usize = 0;
    while i < n
        invariant
            n == s@.len(),
            i <= n,
            forall|j: int| 0 <= j < i ==> #[trigger] s@[j] != ':',
        decreases n - i,
    {
        if s.get_char(i) == ':' {
            assert(is_scheme_end(s@, i as int));
            let ghost k = choose|k: int| is_scheme_end(s@, k);
            assert(k == i);
            let rest = s.substring_char(i + 1, n);
            if n - (i + 1) >= 2 && rest.get_char(0) == '/' && rest.get_char(1) == '/' {
                return Some(rest.substring_char(2, n - (i + 1)));
            }
            return Some(rest);
        }
        i = i + 1;
    }
    None
}

/// The port that a decimal text denotes, if it is a valid port.
pub(crate) fn parse_port(d: &str) -> (r: Option<u16>)
    ensures
        match r {
            Some(n) => valid_port(d@) && n == decimal_value(d@),
            None => !valid_port(d@),
        },
{
    let n = d.unicode_len();
    if n < 1 || n > 5 {
        return None;
    }
    let mut v: u32 = 0;
    let mut i: usize = 0;
    while i < n
        invariant
            n == d@.len(),
            1 <= n <= 5,
            i <= n,
            forall|k: int| 0 <= k < i ==> is_digit(#[trigger] d@[k]),
            v == decimal_value(d@.subrange(0, i as int)),
            v < pow10(i as nat),
        decreases n - i,
    {
        let c = d.get_char(i);
        if !('0' <= c && c <= '9') {
            return None;
        }
        proof {
            assert(d@.subrange(0, i + 1).drop_last() =~= d@.subrange(0, i as int));
            assert(pow10((i + 1) as nat) == 10 * pow10(i as nat));
            lemma_pow10_monotone((i + 1) as nat, 5);
            reveal_with_fuel(pow10, 6);
        }
        v = v * 10 + (c as u32 - '0' as u32);
        i = i + 1;
    }
    assert(d@.subrange(0, n as int) =~= d@);
    if v > 65535 {
        return None;
    }
    Some(v as u16)
}

/// The host and port of a `host:port` text, if it is well formed.
fn parse_address(p: &str) -> (r: Option<NetAddress>)
    ensures
        match r {
            Some(a) => address_of(p@) == Some((a.host@, a.port)),
            None => address_of(p@) is None,
        },
{
    let n = p.unicode_len();
    let mut i: usize = n;
    while i > 0
        invariant
            n == p@.len(),
            i <= n,
            forall|j: int| i <= j < n ==> #[trigger] p@[j] != ':',
        decreases i,
    {
        if p.get_char(i - 1) == ':' {
            let sep = i - 1;
            assert(is_port_separator(p@, sep as int));
            let ghost k = choose|k: int| is_port_separator(p@, k);
            assert(k == sep);
            let host = p.substring_char(0, sep);
            let digits = p.substring_char(sep + 1, n);
            if !is_host(host) {
                return None;
            }
            return match parse_port(digits) {
                Some(port) => Some(NetAddress { host: host.to_owned(), port }),
                None => None,
            };
        }
        i = i - 1;
    }
    None
}

/// Parses `s`, whose scheme the URL parser found to be `scheme`.
pub fn binding_from_scheme(scheme: &str, s: &str) -> (r: Result<Binding, ParseBindingError>)
    ensures
        outcome_of(r) == binding_of(scheme@, s@),
{
    proof {
        reveal_strlit("sock");
        reveal_strlit("tcp");
        reveal_strlit("tcp4");
        reveal_strlit("tcp6");
        assert("sock"@ =~= seq!['s', 'o', 'c', 'k']);
        assert("tcp"@ =~= seq!['t', 'c', 'p']);
        assert("tcp4"@ =~= seq!['t', 'c', 'p', '4']);
        assert("tcp6"@ =~= seq!['t', 'c', 'p', '6']);
    }
    let is_sock = text_is(scheme, "sock");
    let is_tcp = text_is(scheme, "tcp") || text_is(scheme, "tcp4") || text_is(scheme, "tcp6");
    if !is_sock && !is_tcp {
        return Err(ParseBindingError::UnknownScheme(scheme.to_owned()));
    }
    let p = match payload_text(s) {
        Some(p) => p,
        None => {
            return Err(ParseBindingError::InvalidAddress(s.to_owned()));
        },
    };
    if is_sock {
        return Ok(Binding::Unix(p.to_owned()));
    }
    match parse_address(p) {
        Some(a) => Ok(Binding::Tcp(a)),
        None => Err(ParseBindingError::InvalidAddress(p.to_owned())),
    }
}

/// Parses a binding string `<scheme>://<payload>`.
pub fn parse_binding(s: &str) -> (r: Result<Binding, ParseBindingError>)
    ensures
        !url_accepts(s@) ==> outcome_of(r) == ParseOutcome::BadUrl,
        url_accepts(s@) ==> outcome_of(r) == binding_of(url_scheme(s@), s@),
        forall|i: int|
            plain_scheme_end(s@, i) && url_accepts(s@) ==> outcome_of(r) == binding_of(
                s@.subrange(0, i),
                s@,
            ),
{
    match parse_url_scheme(s) {
        Err(e) => Err(ParseBindingError::InvalidUrl(e)),
        Ok(scheme) => binding_from_scheme(scheme.as_str(), s),
    }
}

/// Reads a binding from a command-line value.
pub struct BindingParser;

impl BindingParser {
    /// Parses a command-line value as `parse_binding` does.
    pub fn parse(&self, value: &str) -> (r: Result<Binding, ParseBindingError>)
        ensures
            !url_accepts(value@) ==> outcome_of(r) == ParseOutcome::BadUrl,
            url_accepts(value@) ==> outcome_of(r) == binding_of(url_scheme(value@), value@),
            forall|i: int|
                plain_scheme_end(value@, i) && url_accepts(value@) ==> outcome_of(r) == binding_of(
                    value@.subrange(0, i),
                    value@,
                ),
    {
        parse_binding(value)
    }
}

impl std::str::FromStr for Binding {
    type Err = ParseBindingError;

    /// Parses a binding string as `parse_binding` does.
    fn from_str(s: &str) -> (r: Result<Binding, ParseBindingError>)
        ensures
            !url_accepts(s@) ==> outcome_of(r) == ParseOutcome::BadUrl,
            url_accepts(s@) ==> outcome_of(r) == binding_of(url_scheme(s@), s@),
            forall|i: int|
                plain_scheme_end(s@, i) && url_accepts(s@) ==> outcome_of(r) == binding_of(
                    s@.subrange(0, i),
                    s@,
                ),
    {
        parse_binding(s)
    }
}

impl Binding {
    /// The text of this binding, which `parse_binding` reads back.
    pub fn to_uri(&self) -> (r: String)
        ensures
            r@ == binding_text(self@),
    {
        proof {
            reveal_strlit("sock://");
            reveal_strlit("tcp://");
            reveal_strlit(":");
            assert("sock://"@ =~= seq!['s', 'o', 'c', 'k', ':', '/', '/']);
            assert("tcp://"@ =~= seq!['t', 'c', 'p', ':', '/', '/']);
            assert(":"@ =~= seq![':']);
        }
        match self {
            Binding::Unix(p) => {
                let r = String::from_str("sock://");
                r.concat(p.as_str())
            },
            Binding::Tcp(a) => {
                let r = String::from_str("tcp://");
                let r = r.concat(a.host.as_str());
                let r = r.concat(":");
                let port = port_text(a.port);
                r.concat(port.as_str())
            },
        }
    }
}

/// Formatting a valid binding and parsing the text again, with the scheme
/// that the text was written with, gives back the same binding. The text
/// starts with that scheme in lower case, so whenever the URL parser accepts
/// it, `parse_binding` reads back the same binding.
pub proof fn lemma_binding_round_trip(b: BindingView)
    requires
        valid_binding(b),
    ensures
        binding_of(binding_scheme(b), binding_text(b)) == ParseOutcome::Parsed(b),
        plain_scheme_end(binding_text(b), binding_scheme(b).len() as int),
        binding_text(b).subrange(0, binding_scheme(b).len() as int) == binding_scheme(b),
{
    let s = binding_text(b);
    assert(s.subrange(0, binding_scheme(b).len() as int) =~= binding_scheme(b));
    assert(is_scheme_end(s, binding_scheme(b).len() as int));
    let i = choose|i: int| is_scheme_end(s, i);
    assert(i == binding_scheme(b).len());
    match b {
        BindingView::Unix(p) => {
            assert(s.subrange(i + 1, s.len() as int).subrange(2, s.len() - i - 1) =~= p);
        },
        BindingView::Tcp(h, port) => {
            let d = decimal_text(port as nat);
            lemma_port_text(port);
            let p = h + seq![':'] + d;
            assert(s.subrange(i + 1, s.len() as int).subrange(2, s.len() - i - 1) =~= p);
            assert(is_port_separator(p, h.len() as int));
            let k = choose|k: int| is_port_separator(p, k);
            assert(k == h.len());
            assert(p.subrange(0, k) =~= h);
            assert(p.subrange(k + 1, p.len() as int) =~= d);
        },
    }
}

} // verus!
