//! The socket address grammar: parsing, formatting, and the dial decision.

use vstd::prelude::*;
use vstd::string::*;

use crate::digits::fmt_u64;
use crate::digits::lemma_dec_str_val;
use crate::digits::parse_dec_u16;
use crate::digits::spec_dec_str;
use crate::digits::spec_parse_dec_u16;
use crate::error::Error;
use crate::error::ErrorView;
use crate::util::consume_prefix;
use crate::util::find_char;
use crate::util::find_char_at;
use crate::util::is_prefix_of;
use crate::util::lemma_find_char_at_correct;

verus! {

/// An implementation of adb's socket address specifiers.
///
/// `SocketSpec`s of all types can be constructed on every platform, because
/// they have meaning when talking to a remote device, but actually connecting
/// to an address can fail on unsupported platforms.
#[derive(Clone, Debug, PartialEq, Eq)]
pub enum SocketSpec {
    /// A TCP address and port.
    Tcp { host: Option<String>, port: u16 },
    /// A Unix domain socket in the Linux-only abstract namespace.
    UnixAbstract { path: String },
    /// A Unix domain socket on the filesystem.
    UnixFilesystem { path: String },
    /// A socket in the Linux vsock(7) address family.
    Vsock { host: Option<String>, port: u32 },
}

/// The mathematical value of a [`SocketSpec`].
pub enum SocketSpecView {
    Tcp { host: Option<Seq<char>>, port: u16 },
    UnixAbstract { path: Seq<char> },
    UnixFilesystem { path: Seq<char> },
    Vsock { host: Option<Seq<char>>, port: u32 },
}

/// The view of an optional host string.
pub open spec fn opt_host_view(o: Option<String>) -> Option<Seq<char>> {
    match o {
        Some(h) => Some(h@),
        None => None,
    }
}

impl View for SocketSpec {
    type V = SocketSpecView;

    open spec fn view(&self) -> SocketSpecView {
        match self {
            SocketSpec::Tcp { host, port } => SocketSpecView::Tcp {
                host: opt_host_view(*host),
                port: *port,
            },
            SocketSpec::UnixAbstract { path } => SocketSpecView::UnixAbstract { path: path@ },
            SocketSpec::UnixFilesystem { path } => SocketSpecView::UnixFilesystem { path: path@ },
            SocketSpec::Vsock { host, port } => SocketSpecView::Vsock {
                host: opt_host_view(*host),
                port: *port,
            },
        }
    }
}

// ---------------------------------------------------------------------------
// the grammar
// ---------------------------------------------------------------------------

/// What a `tcp:` tail that is not a bare port means: `HOST:PORT`, where a
/// host beginning with `[` runs through the first `]` (IPv6 bracket form)
/// and otherwise through to the first `:`.
pub open spec fn spec_parse_tcp_host(tail: Seq<char>) -> Option<SocketSpecView> {
    let split = if tail.len() > 0 && tail[0] == '[' {
        let close = find_char_at(tail, ']');
        if close < 0 {
            None
        } else {
            Some(close + 1)
        }
    } else {
        let colon = find_char_at(tail, ':');
        if colon < 0 {
            None
        } else {
            Some(colon)
        }
    };
    match split {
        None => None,
        Some(at) => {
            let rest = tail.skip(at);
            if rest.len() == 0 || rest[0] != ':' {
                None
            } else {
                match spec_parse_dec_u16(rest.skip(1)) {
                    Some(port) => Some(
                        SocketSpecView::Tcp { host: Some(tail.take(at)), port },
                    ),
                    None => None,
                }
            }
        },
    }
}

/// The address grammar.  `None` is the `SocketSpecInvalid` outcome.
pub open spec fn spec_parse(s: Seq<char>) -> Option<SocketSpecView> {
    if is_prefix_of("tcp:"@, s) {
        let tail = s.skip("tcp:"@.len() as int);
        match spec_parse_dec_u16(tail) {
            Some(port) => Some(SocketSpecView::Tcp { host: None, port }),
            None => spec_parse_tcp_host(tail),
        }
    } else if is_prefix_of("localabstract:"@, s) {
        Some(SocketSpecView::UnixAbstract { path: s.skip("localabstract:"@.len() as int) })
    } else if is_prefix_of("localfilesystem:"@, s) {
        Some(SocketSpecView::UnixFilesystem { path: s.skip("localfilesystem:"@.len() as int) })
    } else if is_prefix_of("local:"@, s) {
        Some(SocketSpecView::UnixFilesystem { path: s.skip("local:"@.len() as int) })
    } else {
        None
    }
}

/// How a specification is spelled: the inverse of the grammar where one
/// exists.  A hostless TCP or vsock specification formats as a bare port.
pub open spec fn spec_format(v: SocketSpecView) -> Seq<char> {
    match v {
        SocketSpecView::Tcp { host: Some(h), port } => "tcp:"@ + h + ":"@ + spec_dec_str(
            port as nat,
        ),
        SocketSpecView::Tcp { host: None, port } => "tcp:"@ + spec_dec_str(port as nat),
        SocketSpecView::UnixAbstract { path } => "localabstract:"@ + path,
        SocketSpecView::UnixFilesystem { path } => "localfilesystem:"@ + path,
        SocketSpecView::Vsock { host: Some(h), port } => "vsock:"@ + h + ":"@ + spec_dec_str(
            port as nat,
        ),
        SocketSpecView::Vsock { host: None, port } => "vsock:"@ + spec_dec_str(port as nat),
    }
}

// ---------------------------------------------------------------------------
// executable parsing and formatting
// ---------------------------------------------------------------------------

fn parse_tcp_host(tail: &str) -> (r: Result<SocketSpec, Error>)
    ensures
        spec_parse_tcp_host(tail@) matches Some(v) ==> (r matches Ok(s) && s@ == v),
        spec_parse_tcp_host(tail@) is None ==> (r matches Err(e) && e@
            == ErrorView::SocketSpecInvalid),
{
    let n = tail.unicode_len();
    let at: usize;
    if n > 0 && tail.get_char(0) == '[' {
        match find_char(tail, ']') {
            Some(close) => {
                proof {
                    lemma_find_char_at_correct(tail@, ']');
                }
                at = close + 1;
            },
            None => {
                return Err(Error::SocketSpecInvalid);
            },
        }
    } else {
        match find_char(tail, ':') {
            Some(colon) => {
                at = colon;
            },
            None => {
                return Err(Error::SocketSpecInvalid);
            },
        }
    }
    proof {
        lemma_find_char_at_correct(tail@, ']');
        lemma_find_char_at_correct(tail@, ':');
    }
    if at == n || tail.get_char(at) != ':' {
        return Err(Error::SocketSpecInvalid);
    }
    let port_str = tail.substring_char(at + 1, n);
    proof {
        assert(port_str@ =~= tail@.skip(at as int).skip(1));
    }
    match parse_dec_u16(port_str) {
        Some(port) => {
            let addr = tail.substring_char(0, at);
            proof {
                assert(addr@ =~= tail@.take(at as int));
            }
            Ok(SocketSpec::Tcp { host: Some(String::from_str(addr)), port })
        },
        None => Err(Error::SocketSpecInvalid),
    }
}

impl SocketSpec {
    /// Constructs a TCP [`SocketSpec`].
    pub fn tcp(host: Option<String>, port: u16) -> (r: SocketSpec)
        ensures
            r@ == (SocketSpecView::Tcp { host: opt_host_view(host), port }),
    {
        SocketSpec::Tcp { host, port }
    }

    /// Constructs an abstract Unix domain socket [`SocketSpec`].
    pub fn unix_abstract(path: String) -> (r: SocketSpec)
        ensures
            r@ == (SocketSpecView::UnixAbstract { path: path@ }),
    {
        SocketSpec::UnixAbstract { path }
    }

    /// Constructs a filesystem Unix domain socket [`SocketSpec`].
    pub fn unix_filesystem(path: String) -> (r: SocketSpec)
        ensures
            r@ == (SocketSpecView::UnixFilesystem { path: path@ }),
    {
        SocketSpec::UnixFilesystem { path }
    }

    /// Constructs a vsock [`SocketSpec`].
    pub fn vsock(host: Option<String>, port: u32) -> (r: SocketSpec)
        ensures
            r@ == (SocketSpecView::Vsock { host: opt_host_view(host), port }),
    {
        SocketSpec::Vsock { host, port }
    }

    /// Parses a socket address specification.
    pub fn parse(value: &str) -> (r: Result<SocketSpec, Error>)
        ensures
            spec_parse(value@) matches Some(v) ==> (r matches Ok(s) && s@ == v),
            spec_parse(value@) is None ==> (r matches Err(e) && e@
                == ErrorView::SocketSpecInvalid),
    {
        proof {
            reveal_strlit("tcp:");
            reveal_strlit("localabstract:");
            reveal_strlit("localfilesystem:");
            reveal_strlit("local:");
        }
        if let Some(tail) = consume_prefix(value, "tcp:") {
            match parse_dec_u16(tail) {
                Some(port) => Ok(SocketSpec::Tcp { host: None, port }),
                None => parse_tcp_host(tail),
            }
        } else if let Some(tail) = consume_prefix(value, "localabstract:") {
            Ok(SocketSpec::UnixAbstract { path: String::from_str(tail) })
        } else if let Some(tail) = consume_prefix(value, "localfilesystem:") {
            Ok(SocketSpec::UnixFilesystem { path: String::from_str(tail) })
        } else if let Some(tail) = consume_prefix(value, "local:") {
            Ok(SocketSpec::UnixFilesystem { path: String::from_str(tail) })
        } else {
            Err(Error::SocketSpecInvalid)
        }
    }

    /// Formats the specification in the grammar's spelling.
    pub fn to_str(&self) -> (r: String)
        ensures
            r@ == spec_format(self@),
    {
        match self {
            SocketSpec::Tcp { host, port } => match host {
                Some(h) => {
                    let r = String::from_str("tcp:").concat(h.as_str()).concat(":").concat(
                        fmt_u64(*port as u64).as_str(),
                    );
                    proof {
                        assert(r@ =~= spec_format(self@));
                    }
                    r
                },
                None => {
                    let r = String::from_str("tcp:").concat(fmt_u64(*port as u64).as_str());
                    proof {
                        assert(r@ =~= spec_format(self@));
                    }
                    r
                },
            },
            SocketSpec::UnixAbstract { path } => String::from_str("localabstract:").concat(
                path.as_str(),
            ),
            SocketSpec::UnixFilesystem { path } => String::from_str("localfilesystem:").concat(
                path.as_str(),
            ),
            SocketSpec::Vsock { host, port } => match host {
                Some(h) => {
                    let r = String::from_str("vsock:").concat(h.as_str()).concat(":").concat(
                        fmt_u64(*port as u64).as_str(),
                    );
                    proof {
                        assert(r@ =~= spec_format(self@));
                    }
                    r
                },
                None => {
                    let r = String::from_str("vsock:").concat(fmt_u64(*port as u64).as_str());
                    proof {
                        assert(r@ =~= spec_format(self@));
                    }
                    r
                },
            },
        }
    }
}

// ---------------------------------------------------------------------------
// the dial decision
// ---------------------------------------------------------------------------

/// Where a [`SocketSpec`] says to connect, once the address family questions
/// are settled.  The I/O itself is left to the embedding program.
#[derive(Clone, Debug, PartialEq, Eq)]
pub enum DialTarget {
    /// Connect a TCP stream to this host and port.
    Tcp { host: String, port: u16 },
    /// Connect a Unix stream socket to this path.  Abstract-namespace
    /// addresses carry the customary leading NUL byte.
    Unix { path: String },
}

/// The mathematical value of a [`DialTarget`].
pub enum DialTargetView {
    Tcp { host: Seq<char>, port: u16 },
    Unix { path: Seq<char> },
}

impl View for DialTarget {
    type V = DialTargetView;

    open spec fn view(&self) -> DialTargetView {
        match self {
            DialTarget::Tcp { host, port } => DialTargetView::Tcp { host: host@, port: *port },
            DialTarget::Unix { path } => DialTargetView::Unix { path: path@ },
        }
    }
}

/// The dial decision for a specification.
pub open spec fn spec_dial_target(v: SocketSpecView) -> Result<DialTargetView, ErrorView> {
    match v {
        SocketSpecView::Tcp { host: Some(h), port } => Ok(DialTargetView::Tcp { host: h, port }),
        SocketSpecView::Tcp { host: None, .. } => Err(ErrorView::SocketSpecMissingHost),
        SocketSpecView::UnixAbstract { path } => Ok(
            DialTargetView::Unix { path: "\u{0}"@ + path },
        ),
        SocketSpecView::UnixFilesystem { path } => Ok(DialTargetView::Unix { path }),
        SocketSpecView::Vsock { .. } => Err(ErrorView::SocketSpecUnsupportedType),
    }
}

impl SocketSpec {
    /// Decides where this specification dials to.
    ///
    /// A hostless TCP or vsock specification cannot be dialed, and vsock
    /// connections are intentionally unsupported.
    pub fn dial_target(&self) -> (r: Result<DialTarget, Error>)
        ensures
            crate::error::result_view(r) == spec_dial_target(self@),
    {
        match self {
            SocketSpec::Tcp { host, port } => match host {
                Some(h) => Ok(DialTarget::Tcp { host: h.clone(), port: *port }),
                None => Err(Error::SocketSpecMissingHost),
            },
            SocketSpec::UnixAbstract { path } => Ok(
                DialTarget::Unix { path: String::from_str("\u{0}").concat(path.as_str()) },
            ),
            SocketSpec::UnixFilesystem { path } => Ok(DialTarget::Unix { path: path.clone() }),
            SocketSpec::Vsock { .. } => Err(Error::SocketSpecUnsupportedType),
        }
    }
}

// ---------------------------------------------------------------------------
// the round trip law
// ---------------------------------------------------------------------------

/// A host spelling the grammar can read back: the bracket form `[...]` with
/// the bracket closed exactly at the end, or a spelling without any colon.
pub open spec fn host_wf(h: Seq<char>) -> bool {
    h.len() > 0 && if h[0] == '[' {
        h.last() == ']' && (forall|i: int| 0 <= i < h.len() - 1 ==> h[i] != ']')
    } else {
        forall|i: int| 0 <= i < h.len() ==> h[i] != ':'
    }
}

/// The specifications whose formatted spelling the grammar accepts: every
/// variant but vsock, which the grammar never produces, with any well-formed
/// host.
pub open spec fn format_parseable(v: SocketSpecView) -> bool {
    match v {
        SocketSpecView::Tcp { host: Some(h), .. } => host_wf(h),
        SocketSpecView::Tcp { host: None, .. } => true,
        SocketSpecView::UnixAbstract { .. } => true,
        SocketSpecView::UnixFilesystem { .. } => true,
        SocketSpecView::Vsock { .. } => false,
    }
}

/// Law: parsing a formatted specification gives the specification back,
/// for every specification whose spelling the grammar accepts.
pub proof fn lemma_format_parse_round_trip(v: SocketSpecView)
    requires
        format_parseable(v),
    ensures
        spec_parse(spec_format(v)) == Some(v),
{
    reveal_strlit("tcp:");
    reveal_strlit("localabstract:");
    reveal_strlit("localfilesystem:");
    reveal_strlit("local:");
    let s = spec_format(v);
    match v {
        SocketSpecView::Tcp { host: None, port } => {
            let d = spec_dec_str(port as nat);
            lemma_dec_str_val(port as nat);
            assert(s.subrange(0, 4) =~= "tcp:"@);
            assert(is_prefix_of("tcp:"@, s));
            assert(s.skip(4) =~= d);
            assert(spec_parse_dec_u16(d) == Some(port));
        },
        SocketSpecView::Tcp { host: Some(h), port } => {
            let d = spec_dec_str(port as nat);
            lemma_dec_str_val(port as nat);
            let tail = h + ":"@ + d;
            reveal_strlit(":");
            assert(s =~= "tcp:"@ + tail);
            assert(s.subrange(0, 4) =~= "tcp:"@);
            assert(is_prefix_of("tcp:"@, s));
            assert(s.skip(4) =~= tail);
            // The whole tail is not a port: it contains a colon.
            let cpos = h.len() as int;
            assert(tail[cpos] == ':');
            assert(!crate::digits::is_dec_digit(':'));
            assert(spec_parse_dec_u16(tail) is None) by {
                let t = if tail.len() > 0 && tail[0] == '+' {
                    tail.drop_first()
                } else {
                    tail
                };
                if tail.len() > 0 && tail[0] == '+' {
                    assert(h.len() >= 1);
                    assert(t[cpos - 1] == tail[cpos]);
                    assert(!crate::digits::all_dec_digits(t));
                } else {
                    assert(!crate::digits::all_dec_digits(t));
                }
            }
            // The host splits back off.
            lemma_find_char_at_correct(tail, ']');
            lemma_find_char_at_correct(tail, ':');
            if h[0] == '[' {
                assert(tail[0] == '[');
                assert(tail[h.len() - 1] == h.last());
                assert forall|i: int| 0 <= i < h.len() - 1 implies tail[i] != ']' by {
                    assert(tail[i] == h[i]);
                }
                assert(find_char_at(tail, ']') == h.len() - 1) by {
                    let f = find_char_at(tail, ']');
                    if f == -1 {
                        assert(tail[h.len() - 1] != ']');
                    } else if f < h.len() - 1 {
                        assert(tail[f] != ']');
                    } else if f > h.len() - 1 {
                        assert(tail[h.len() - 1] != ']');
                    }
                }
            } else {
                assert forall|i: int| 0 <= i < h.len() implies tail[i] != ':' by {
                    assert(tail[i] == h[i]);
                }
                assert(find_char_at(tail, ':') == h.len()) by {
                    let f = find_char_at(tail, ':');
                    if f == -1 {
                        assert(tail[cpos] != ':');
                    } else if f < h.len() {
                        assert(tail[f] != ':');
                    } else if f > h.len() {
                        assert(tail[cpos] != ':');
                    }
                }
            }
            let rest = tail.skip(cpos);
            assert(rest[0] == ':');
            assert(rest.skip(1) =~= d);
            assert(tail.take(cpos) =~= h);
            assert(spec_parse_dec_u16(d) == Some(port));
        },
        SocketSpecView::UnixAbstract { path } => {
            assert(s[0] == 'l');
            assert(!is_prefix_of("tcp:"@, s)) by {
                if is_prefix_of("tcp:"@, s) {
                    assert(s.subrange(0, 4)[0] == s[0]);
                }
            }
            assert(s.subrange(0, 14) =~= "localabstract:"@);
            assert(is_prefix_of("localabstract:"@, s));
            assert(s.skip(14) =~= path);
        },
        SocketSpecView::UnixFilesystem { path } => {
            assert(s[0] == 'l');
            assert(s[5] == 'f');
            assert(!is_prefix_of("tcp:"@, s)) by {
                if is_prefix_of("tcp:"@, s) {
                    assert(s.subrange(0, 4)[0] == s[0]);
                }
            }
            assert(!is_prefix_of("localabstract:"@, s)) by {
                if is_prefix_of("localabstract:"@, s) {
                    assert(s.subrange(0, 14)[5] == s[5]);
                }
            }
            assert(s.subrange(0, 16) =~= "localfilesystem:"@);
            assert(is_prefix_of("localfilesystem:"@, s));
            assert(s.skip(16) =~= path);
        },
        SocketSpecView::Vsock { .. } => {
            assert(false);
        },
    }
}

} // verus!
