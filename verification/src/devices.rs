//! The `host:devices-l` device-list grammar.
//!
//! The body is a legacy human-readable format: one device per line, the
//! serial first, padded with spaces, then the transport state, then optional
//! `key:value` attributes, then ` transport_id:N`.  The parser is tolerant
//! only to the documented state keywords; an unknown keyword fails the whole
//! list rather than producing a degenerate record.

use vstd::prelude::*;
use vstd::string::*;

use crate::digits::lemma_dec_str_val;
use crate::digits::parse_dec_u64;
use crate::digits::spec_dec_str;
use crate::digits::spec_parse_dec_u64;
use crate::error::Error;
use crate::error::ErrorView;
use crate::host::DeviceDescription;
use crate::host::DeviceDescriptionView;
use crate::host::DeviceType;
use crate::host::TransportId;
use crate::host::TransportType;
use crate::util::consume_prefix;
use crate::util::find_char_at;
use crate::util::find_sub;
use crate::util::is_prefix_of;
use crate::util::leading_spaces;
use crate::util::lemma_find_char_at_correct;
use crate::util::occurs_at;
use crate::util::matches_at;
use crate::util::rfind_sub;
use crate::util::rsplit_once;
use crate::util::split_once;
use crate::util::starts_with;
use crate::util::trim_start_spaces;

verus! {

// ---------------------------------------------------------------------------
// error messages
// ---------------------------------------------------------------------------

pub open spec fn no_space_msg(line: Seq<char>) -> Seq<char> {
    "invalid device line: '"@ + line + "'"@
}

pub open spec fn no_transport_id_msg(line: Seq<char>) -> Seq<char> {
    "transport_id missing in device line: '"@ + line + "'"@
}

pub open spec fn bad_transport_id_msg(line: Seq<char>) -> Seq<char> {
    "invalid transport id in device line: '"@ + line + "'"@
}

pub open spec fn bad_device_type_msg(line: Seq<char>) -> Seq<char> {
    "failed to parse device type from device line '"@ + line + "'"@
}

fn quote_line_err(prefix: &'static str, line: &str) -> (r: String)
    ensures
        r@ == prefix@ + line@ + "'"@,
{
    let r = String::from_str(prefix).concat(line).concat("'");
    proof {
        assert(r@ =~= prefix@ + line@ + "'"@);
    }
    r
}

// ---------------------------------------------------------------------------
// the attribute tail
// ---------------------------------------------------------------------------

/// The length of the run of non-space characters beginning at `start`.
pub open spec fn nonspace_run(s: Seq<char>, start: int) -> int
    decreases s.len() - start,
{
    if 0 <= start < s.len() && s[start] != ' ' {
        1 + nonspace_run(s, start + 1)
    } else {
        0
    }
}

proof fn lemma_nonspace_run_exact(s: Seq<char>, start: int, e: int)
    requires
        0 <= start <= e <= s.len(),
        forall|q: int| start <= q < e ==> s[q] != ' ',
        e == s.len() || s[e] == ' ',
    ensures
        nonspace_run(s, start) == e - start,
    decreases e - start,
{
    if start < e {
        lemma_nonspace_run_exact(s, start + 1, e);
    }
}

/// One optional ` key:value` attribute at `pos`: present when the key
/// matches there and at least one non-space character follows it; the value
/// is the maximal non-space run.  Yields the value and the position after it.
pub open spec fn spec_attr_after(s: Seq<char>, pos: int, key: Seq<char>) -> (Option<Seq<char>>, int) {
    if pos + key.len() <= s.len() && s.subrange(pos, pos + key.len()) == key {
        let start = pos + key.len();
        let run = nonspace_run(s, start);
        if run > 0 {
            (Some(s.subrange(start, start + run)), start + run)
        } else {
            (None, pos)
        }
    } else {
        (None, pos)
    }
}

/// The attribute tail after an online device's type keyword: an optional
/// device path (a leading non-space run), then optional `product:`, `model:`
/// and `device:` attributes, in that fixed order.
pub open spec fn spec_attrs(tail: Seq<char>) -> (
    Option<Seq<char>>,
    Option<Seq<char>>,
    Option<Seq<char>>,
    Option<Seq<char>>,
) {
    let k = nonspace_run(tail, 0);
    if k == 0 {
        (None, None, None, None)
    } else {
        let (product, p1) = spec_attr_after(tail, k, " product:"@);
        let (model, p2) = spec_attr_after(tail, p1, " model:"@);
        let (device, p3) = spec_attr_after(tail, p2, " device:"@);
        (Some(tail.take(k)), product, model, device)
    }
}

fn attr_after(s: &str, n: usize, pos: usize, key: &str) -> (r: (Option<String>, usize))
    requires
        n == s@.len(),
        pos <= n,
    ensures
        pos <= r.1 <= n,
        spec_attr_after(s@, pos as int, key@) == (
            crate::host::opt_str_view(r.0),
            r.1 as int,
        ),
{
    let m = key.unicode_len();
    if n - pos < m {
        return (None, pos);
    }
    if !matches_at(s, n, key, m, pos) {
        return (None, pos);
    }
    let start = pos + m;
    let mut e = start;
    while e < n && s.get_char(e) != ' '
        invariant
            n == s@.len(),
            start <= e <= n,
            forall|q: int| start <= q < e ==> s@[q] != ' ',
        decreases n - e,
    {
        e = e + 1;
    }
    proof {
        lemma_nonspace_run_exact(s@, start as int, e as int);
    }
    if e == start {
        return (None, pos);
    }
    let value = s.substring_char(start, e);
    (Some(String::from_str(value)), e)
}

fn parse_attrs(tail: &str) -> (r: (Option<String>, Option<String>, Option<String>, Option<String>))
    ensures
        tail@.len() == 0 ==> r == (
            None::<String>,
            None::<String>,
            None::<String>,
            None::<String>,
        ),
        tail@.len() > 0 ==> spec_attrs(tail@) == (
            crate::host::opt_str_view(r.0),
            crate::host::opt_str_view(r.1),
            crate::host::opt_str_view(r.2),
            crate::host::opt_str_view(r.3),
        ),
{
    let n = tail.unicode_len();
    if n == 0 {
        return (None, None, None, None);
    }
    let mut k: usize = 0;
    while k < n && tail.get_char(k) != ' '
        invariant
            n == tail@.len(),
            k <= n,
            forall|q: int| 0 <= q < k ==> tail@[q] != ' ',
        decreases n - k,
    {
        k = k + 1;
    }
    proof {
        lemma_nonspace_run_exact(tail@, 0, k as int);
    }
    if k == 0 {
        return (None, None, None, None);
    }
    let dp = String::from_str(tail.substring_char(0, k));
    let (product, p1) = attr_after(tail, n, k, " product:");
    let (model, p2) = attr_after(tail, n, p1, " model:");
    let (device, _p3) = attr_after(tail, n, p2, " device:");
    (Some(dp), product, model, device)
}

// ---------------------------------------------------------------------------
// one device line
// ---------------------------------------------------------------------------

/// The transport state a trimmed middle begins with, and the attribute tail
/// that follows it.  The five offline-ish states carry no attributes; an
/// online device's type keyword and single space are followed by the tail.
pub open spec fn spec_classify_state(rest: Seq<char>) -> Option<(TransportType, Seq<char>)> {
    if is_prefix_of("offline"@, rest) {
        Some((TransportType::Offline, Seq::<char>::empty()))
    } else if is_prefix_of("no permissions"@, rest) {
        Some((TransportType::NoPermissions, Seq::<char>::empty()))
    } else if is_prefix_of("unauthorized"@, rest) {
        Some((TransportType::Unauthorized, Seq::<char>::empty()))
    } else if is_prefix_of("authorizing"@, rest) {
        Some((TransportType::Authorizing, Seq::<char>::empty()))
    } else if is_prefix_of("connecting"@, rest) {
        Some((TransportType::Connecting, Seq::<char>::empty()))
    } else if is_prefix_of("bootloader "@, rest) {
        Some((TransportType::Online(DeviceType::Bootloader), rest.skip("bootloader "@.len() as int)))
    } else if is_prefix_of("device "@, rest) {
        Some((TransportType::Online(DeviceType::Device), rest.skip("device "@.len() as int)))
    } else if is_prefix_of("host "@, rest) {
        Some((TransportType::Online(DeviceType::Host), rest.skip("host "@.len() as int)))
    } else if is_prefix_of("recovery "@, rest) {
        Some((TransportType::Online(DeviceType::Recovery), rest.skip("recovery "@.len() as int)))
    } else if is_prefix_of("rescue "@, rest) {
        Some((TransportType::Online(DeviceType::Rescue), rest.skip("rescue "@.len() as int)))
    } else if is_prefix_of("sideload "@, rest) {
        Some((TransportType::Online(DeviceType::Sideload), rest.skip("sideload "@.len() as int)))
    } else {
        None
    }
}

/// A device record with the given fields and its attribute tail read.
pub open spec fn line_record(serial: Seq<char>, id: u64, t: TransportType, tail: Seq<char>) -> DeviceDescriptionView {
    let attrs = if tail.len() == 0 {
        (None::<Seq<char>>, None::<Seq<char>>, None::<Seq<char>>, None::<Seq<char>>)
    } else {
        spec_attrs(tail)
    };
    DeviceDescriptionView {
        serial,
        id,
        transport_type: t,
        device_path: attrs.0,
        product: attrs.1,
        model: attrs.2,
        device: attrs.3,
    }
}

/// What one non-empty device line means.
///
/// The serial runs to the first space; the transport id is the decimal
/// suffix after the last ` transport_id:`; the middle, with its column
/// padding stripped, begins with a transport state keyword.
pub open spec fn spec_parse_line(line: Seq<char>) -> Result<DeviceDescriptionView, ErrorView> {
    let sp = find_sub(line, " "@);
    if sp < 0 {
        Err(ErrorView::UnexpectedData { msg: no_space_msg(line) })
    } else {
        let serial = line.take(sp);
        let middle = line.skip(sp + " "@.len());
        let tid = rfind_sub(middle, " transport_id:"@);
        if tid < 0 {
            Err(ErrorView::UnexpectedData { msg: no_transport_id_msg(line) })
        } else {
            let tid_str = middle.skip(tid + " transport_id:"@.len());
            let mid = middle.take(tid);
            match spec_parse_dec_u64(tid_str) {
                None => Err(ErrorView::UnexpectedData { msg: bad_transport_id_msg(line) }),
                Some(id) => {
                    let rest = mid.skip(leading_spaces(mid));
                    match spec_classify_state(rest) {
                        Some(st) => Ok(line_record(serial, id, st.0, st.1)),
                        None => Err(ErrorView::UnexpectedData { msg: bad_device_type_msg(line) }),
                    }
                },
            }
        }
    }
}

/// Parses one non-empty device line.
pub fn parse_device_line(line: &str) -> (r: Result<DeviceDescription, Error>)
    ensures
        r matches Ok(d) ==> spec_parse_line(line@) == Ok::<_, ErrorView>(d@),
        r matches Err(e) ==> spec_parse_line(line@) == Err::<DeviceDescriptionView, _>(e@),
{
    let (serial, middle) = match split_once(line, " ") {
        Some(x) => x,
        None => {
            return Err(
                Error::UnexpectedData(quote_line_err("invalid device line: '", line)),
            );
        },
    };
    let (tid_str, mid) = match rsplit_once(middle, " transport_id:") {
        Some(x) => x,
        None => {
            return Err(
                Error::UnexpectedData(
                    quote_line_err("transport_id missing in device line: '", line),
                ),
            );
        },
    };
    let id = match parse_dec_u64(tid_str) {
        Some(v) => TransportId(v),
        None => {
            return Err(
                Error::UnexpectedData(
                    quote_line_err("invalid transport id in device line: '", line),
                ),
            );
        },
    };
    let rest = trim_start_spaces(mid);
    let transport_type: TransportType;
    let tail: &str;
    if starts_with(rest, "offline") {
        transport_type = TransportType::Offline;
        tail = "";
    } else if starts_with(rest, "no permissions") {
        transport_type = TransportType::NoPermissions;
        tail = "";
    } else if starts_with(rest, "unauthorized") {
        transport_type = TransportType::Unauthorized;
        tail = "";
    } else if starts_with(rest, "authorizing") {
        transport_type = TransportType::Authorizing;
        tail = "";
    } else if starts_with(rest, "connecting") {
        transport_type = TransportType::Connecting;
        tail = "";
    } else if let Some(s2) = consume_prefix(rest, "bootloader ") {
        transport_type = TransportType::Online(DeviceType::Bootloader);
        tail = s2;
    } else if let Some(s2) = consume_prefix(rest, "device ") {
        transport_type = TransportType::Online(DeviceType::Device);
        tail = s2;
    } else if let Some(s2) = consume_prefix(rest, "host ") {
        transport_type = TransportType::Online(DeviceType::Host);
        tail = s2;
    } else if let Some(s2) = consume_prefix(rest, "recovery ") {
        transport_type = TransportType::Online(DeviceType::Recovery);
        tail = s2;
    } else if let Some(s2) = consume_prefix(rest, "rescue ") {
        transport_type = TransportType::Online(DeviceType::Rescue);
        tail = s2;
    } else if let Some(s2) = consume_prefix(rest, "sideload ") {
        transport_type = TransportType::Online(DeviceType::Sideload);
        tail = s2;
    } else {
        return Err(
            Error::UnexpectedData(
                quote_line_err("failed to parse device type from device line '", line),
            ),
        );
    }
    proof {
        reveal_strlit("");
    }
    let (device_path, product, model, device) = parse_attrs(tail);
    Ok(
        DeviceDescription {
            serial: String::from_str(serial),
            id,
            transport_type,
            device_path,
            product,
            model,
            device,
        },
    )
}

// ---------------------------------------------------------------------------
// the device line law
// ---------------------------------------------------------------------------

/// A word of a device line: non-empty, with no space in it.
pub open spec fn token_wf(t: Seq<char>) -> bool {
    t.len() > 0 && forall|i: int| 0 <= i < t.len() ==> t[i] != ' '
}

pub open spec fn opt_token_wf(o: Option<Seq<char>>) -> bool {
    match o {
        Some(t) => token_wf(t),
        None => true,
    }
}

/// One optional keyed attribute's spelling: the key (with its leading
/// space) and the value, or nothing.
pub open spec fn attr_tok(key: Seq<char>, v: Option<Seq<char>>) -> Seq<char> {
    match v {
        Some(x) => key + x,
        None => Seq::<char>::empty(),
    }
}

/// The attribute tail of an online device line.
pub open spec fn attrs_tail(
    dp: Option<Seq<char>>,
    product: Option<Seq<char>>,
    model: Option<Seq<char>>,
    device: Option<Seq<char>>,
) -> Seq<char> {
    match dp {
        None => Seq::<char>::empty(),
        Some(p) => p + attr_tok(" product:"@, product) + attr_tok(" model:"@, model) + attr_tok(
            " device:"@,
            device,
        ),
    }
}

/// The transport state's spelling on a line: for an online device the type
/// keyword, one space, and the attribute tail.
pub open spec fn spec_state_part(t: TransportType, tail: Seq<char>) -> Seq<char> {
    match t {
        TransportType::Online(dt) => crate::host::spec_device_type_str(dt) + " "@ + tail,
        _ => crate::host::spec_transport_type_str(t),
    }
}

/// The spelling of a well-formed device line with these fields.
pub open spec fn spec_device_line(
    serial: Seq<char>,
    t: TransportType,
    dp: Option<Seq<char>>,
    product: Option<Seq<char>>,
    model: Option<Seq<char>>,
    device: Option<Seq<char>>,
    id: u64,
) -> Seq<char> {
    serial + " "@ + spec_state_part(t, attrs_tail(dp, product, model, device))
        + " transport_id:"@ + spec_dec_str(id as nat)
}

/// The fields a device line can carry faithfully: words without spaces, no
/// attributes for the states that carry none, and — because the first word
/// of the attribute tail always reads as the device path — a device path
/// whenever any keyed attribute is present.
pub open spec fn device_line_wf(
    serial: Seq<char>,
    t: TransportType,
    dp: Option<Seq<char>>,
    product: Option<Seq<char>>,
    model: Option<Seq<char>>,
    device: Option<Seq<char>>,
) -> bool {
    &&& token_wf(serial)
    &&& opt_token_wf(dp)
    &&& opt_token_wf(product)
    &&& opt_token_wf(model)
    &&& opt_token_wf(device)
    &&& match t {
        TransportType::Online(_) => (product is Some || model is Some || device is Some)
            ==> dp is Some,
        _ => dp is None && product is None && model is None && device is None,
    }
}

proof fn lemma_attr_step(
    s: Seq<char>,
    pos: int,
    key: Seq<char>,
    v: Option<Seq<char>>,
    rest: Seq<char>,
)
    requires
        0 <= pos <= s.len(),
        s.skip(pos) =~= attr_tok(key, v) + rest,
        opt_token_wf(v),
        key.len() > 0,
        v is None ==> !(pos + key.len() <= s.len() && s.subrange(pos, pos + key.len()) == key),
        v is Some ==> (rest.len() == 0 || rest[0] == ' '),
    ensures
        spec_attr_after(s, pos, key) == (v, pos + attr_tok(key, v).len()),
{
    let w = attr_tok(key, v) + rest;
    assert(s.skip(pos).len() == s.len() - pos);
    assert(s.skip(pos).len() == w.len());
    match v {
        None => {
        },
        Some(x) => {
            let start = pos + key.len();
            assert(w.len() == key.len() + x.len() + rest.len());
            assert forall|k: int| 0 <= k < key.len() implies s.subrange(pos, start)[k] == key[k] by {
                assert(s.skip(pos)[k] == w[k]);
                assert(w[k] == key[k]);
                assert(s.skip(pos)[k] == s[pos + k]);
            }
            assert(s.subrange(pos, start) =~= key);
            assert forall|q: int| start <= q < start + x.len() implies s[q] != ' ' by {
                assert(s.skip(pos)[q - pos] == w[q - pos]);
                assert(w[q - pos] == x[q - start]);
                assert(s.skip(pos)[q - pos] == s[q]);
            }
            if start + x.len() < s.len() {
                assert(s.skip(pos)[start + x.len() - pos] == w[start + x.len() - pos]);
                assert(w[start + x.len() - pos] == rest[0]);
                assert(s.skip(pos)[start + x.len() - pos] == s[start + x.len()]);
            }
            lemma_nonspace_run_exact(s, start, start + x.len());
            assert forall|k: int| 0 <= k < x.len() implies s.subrange(start, start + x.len())[k]
                == x[k] by {
                assert(s.skip(pos)[key.len() + k] == w[key.len() + k]);
                assert(w[key.len() + k] == x[k]);
                assert(s.skip(pos)[key.len() + k] == s[start + k]);
            }
            assert(s.subrange(start, start + x.len()) =~= x);
        },
    }
}

/// The serial splits off a line at its first space.
proof fn lemma_serial_split(serial: Seq<char>, m: Seq<char>)
    requires
        token_wf(serial),
    ensures
        find_sub(serial + " "@ + m, " "@) == serial.len(),
        (serial + " "@ + m).take(serial.len() as int) == serial,
        (serial + " "@ + m).skip(serial.len() as int + 1) == m,
        " "@.len() == 1,
{
    reveal_strlit(" ");
    let line = serial + " "@ + m;
    let sl = serial.len() as int;
    assert(line[sl] == ' ');
    assert(line.subrange(sl, sl + 1) =~= " "@);
    assert(occurs_at(line, " "@, sl));
    assert forall|q: int| 0 <= q < sl implies !occurs_at(line, " "@, q) by {
        assert(line[q] == serial[q]);
        if occurs_at(line, " "@, q) {
            assert(line.subrange(q, q + 1)[0] == line[q]);
        }
    }
    crate::util::lemma_find_sub_exact(line, " "@, sl);
    assert(line.take(sl) =~= serial);
    assert(line.skip(sl + 1) =~= m);
}

/// The transport id splits off the middle at the last ` transport_id:`,
/// because nothing after that pattern holds a space.
#[verifier::rlimit(100)]
#[verifier::spinoff_prover]
proof fn lemma_tid_split(sp: Seq<char>, dec: Seq<char>)
    requires
        dec.len() > 0,
        crate::digits::all_dec_digits(dec),
    ensures
        rfind_sub(sp + " transport_id:"@ + dec, " transport_id:"@) == sp.len(),
        (sp + " transport_id:"@ + dec).take(sp.len() as int) == sp,
        (sp + " transport_id:"@ + dec).skip(sp.len() as int + " transport_id:"@.len() as int) == dec,
        " transport_id:"@.len() == 14,
{
    reveal_strlit(" transport_id:");
    let pat = " transport_id:"@;
    let middle = sp + pat + dec;
    let pp = sp.len() as int;
    assert(middle.subrange(pp, pp + 14) =~= pat);
    assert(occurs_at(middle, pat, pp));
    assert(forall|i: int| 1 <= i < 14 ==> pat[i] != ' ');
    assert forall|q: int| q > pp implies !occurs_at(middle, pat, q) by {
        if q + 14 <= middle.len() {
            if q < pp + 14 {
                assert(middle[q] == pat[q - pp]);
            } else {
                assert(middle[q] == dec[q - pp - 14]);
                assert(crate::digits::is_dec_digit(dec[q - pp - 14]));
            }
            if occurs_at(middle, pat, q) {
                assert(middle.subrange(q, q + 14)[0] == middle[q]);
            }
        }
    }
    crate::util::lemma_rfind_sub_exact(middle, pat, pp);
    assert(middle.take(pp) =~= sp);
    assert(middle.skip(pp + 14) =~= dec);
}

/// Sequences whose first characters differ have no prefix relation.
proof fn lemma_not_prefix_first_char(p: Seq<char>, s: Seq<char>)
    requires
        p.len() > 0,
        s.len() > 0,
        p[0] != s[0],
    ensures
        !is_prefix_of(p, s),
{
    if is_prefix_of(p, s) {
        assert(s.subrange(0, p.len() as int)[0] == s[0]);
    }
}

/// A state part classifies back to its own transport state and tail.
#[verifier::rlimit(50)]
proof fn lemma_classify_state(t: TransportType, tail: Seq<char>)
    ensures
        spec_state_part(t, tail).len() > 0,
        spec_state_part(t, tail)[0] != ' ',
        spec_classify_state(spec_state_part(t, tail)) == Some(
            (
                t,
                match t {
                    TransportType::Online(_) => tail,
                    _ => Seq::<char>::empty(),
                },
            ),
        ),
{
    reveal_strlit("offline");
    reveal_strlit("no permissions");
    reveal_strlit("unauthorized");
    reveal_strlit("authorizing");
    reveal_strlit("connecting");
    reveal_strlit("bootloader");
    reveal_strlit("device");
    reveal_strlit("host");
    reveal_strlit("recovery");
    reveal_strlit("rescue");
    reveal_strlit("sideload");
    reveal_strlit("bootloader ");
    reveal_strlit("device ");
    reveal_strlit("host ");
    reveal_strlit("recovery ");
    reveal_strlit("rescue ");
    reveal_strlit("sideload ");
    reveal_strlit(" ");
    let s = spec_state_part(t, tail);
    match t {
        TransportType::Offline => {
            assert(s.subrange(0, 7) =~= "offline"@);
        },
        TransportType::NoPermissions => {
            lemma_not_prefix_first_char("offline"@, s);
            assert(s.subrange(0, 14) =~= "no permissions"@);
        },
        TransportType::Unauthorized => {
            lemma_not_prefix_first_char("offline"@, s);
            lemma_not_prefix_first_char("no permissions"@, s);
            assert(s.subrange(0, 12) =~= "unauthorized"@);
        },
        TransportType::Authorizing => {
            lemma_not_prefix_first_char("offline"@, s);
            lemma_not_prefix_first_char("no permissions"@, s);
            lemma_not_prefix_first_char("unauthorized"@, s);
            assert(s.subrange(0, 11) =~= "authorizing"@);
        },
        TransportType::Connecting => {
            lemma_not_prefix_first_char("offline"@, s);
            lemma_not_prefix_first_char("no permissions"@, s);
            lemma_not_prefix_first_char("unauthorized"@, s);
            lemma_not_prefix_first_char("authorizing"@, s);
            assert(s.subrange(0, 10) =~= "connecting"@);
        },
        TransportType::Online(dt) => {
            let kw = crate::host::spec_device_type_str(dt) + " "@;
            assert(s =~= kw + tail);
            assert(s[0] == kw[0]);
            lemma_not_prefix_first_char("offline"@, s);
            lemma_not_prefix_first_char("no permissions"@, s);
            lemma_not_prefix_first_char("unauthorized"@, s);
            lemma_not_prefix_first_char("authorizing"@, s);
            lemma_not_prefix_first_char("connecting"@, s);
            match dt {
                DeviceType::Bootloader => {
                    assert(s.subrange(0, 11) =~= "bootloader "@);
                    assert(s.skip(11) =~= tail);
                },
                DeviceType::Device => {
                    lemma_not_prefix_first_char("bootloader "@, s);
                    assert(s.subrange(0, 7) =~= "device "@);
                    assert(s.skip(7) =~= tail);
                },
                DeviceType::Host => {
                    lemma_not_prefix_first_char("bootloader "@, s);
                    lemma_not_prefix_first_char("device "@, s);
                    assert(s.subrange(0, 5) =~= "host "@);
                    assert(s.skip(5) =~= tail);
                },
                DeviceType::Recovery => {
                    lemma_not_prefix_first_char("bootloader "@, s);
                    lemma_not_prefix_first_char("device "@, s);
                    lemma_not_prefix_first_char("host "@, s);
                    assert(s.subrange(0, 9) =~= "recovery "@);
                    assert(s.skip(9) =~= tail);
                },
                DeviceType::Rescue => {
                    lemma_not_prefix_first_char("bootloader "@, s);
                    lemma_not_prefix_first_char("device "@, s);
                    lemma_not_prefix_first_char("host "@, s);
                    // `recovery ` and `rescue ` agree on `re` and differ after
                    assert(!is_prefix_of("recovery "@, s)) by {
                        if is_prefix_of("recovery "@, s) {
                            assert(s.subrange(0, 9)[2] == s[2]);
                            assert(s[2] == "rescue "@[2]);
                        }
                    }
                    assert(s.subrange(0, 7) =~= "rescue "@);
                    assert(s.skip(7) =~= tail);
                },
                DeviceType::Sideload => {
                    lemma_not_prefix_first_char("bootloader "@, s);
                    lemma_not_prefix_first_char("device "@, s);
                    lemma_not_prefix_first_char("host "@, s);
                    lemma_not_prefix_first_char("recovery "@, s);
                    lemma_not_prefix_first_char("rescue "@, s);
                    assert(s.subrange(0, 9) =~= "sideload "@);
                    assert(s.skip(9) =~= tail);
                },
            }
        },
    }
}

/// Law: a well-formed device line parses back to exactly its fields — the
/// serial, transport id and transport state match the input, and each
/// attribute is present precisely when its token stands on the line.
pub proof fn lemma_device_line_round_trip(
    serial: Seq<char>,
    t: TransportType,
    dp: Option<Seq<char>>,
    product: Option<Seq<char>>,
    model: Option<Seq<char>>,
    device: Option<Seq<char>>,
    id: u64,
)
    requires
        device_line_wf(serial, t, dp, product, model, device),
    ensures
        spec_parse_line(spec_device_line(serial, t, dp, product, model, device, id)) == Ok::<
            _,
            ErrorView,
        >(
            DeviceDescriptionView {
                serial,
                id,
                transport_type: t,
                device_path: dp,
                product,
                model,
                device,
            },
        ),
{
    let line = spec_device_line(serial, t, dp, product, model, device, id);
    let tail = attrs_tail(dp, product, model, device);
    let sp = spec_state_part(t, tail);
    let dec = spec_dec_str(id as nat);
    let pat = " transport_id:"@;
    let middle = sp + pat + dec;
    lemma_dec_str_val(id as nat);
    lemma_serial_split(serial, middle);
    assert(line =~= serial + " "@ + middle);
    lemma_tid_split(sp, dec);
    assert(spec_parse_dec_u64(dec) == Some(id));
    lemma_classify_state(t, tail);
    // no column padding was written, so nothing trims away
    assert(leading_spaces(sp) == 0);
    assert(sp.skip(0) =~= sp);
    match t {
        TransportType::Online(_) => {
            lemma_attrs_round_trip(dp, product, model, device);
        },
        _ => {
            assert(dp is None && product is None && model is None && device is None);
        },
    }
}

/// The attribute tail reads back as exactly its fields.
#[verifier::rlimit(100)]
#[verifier::spinoff_prover]
proof fn lemma_attrs_round_trip(
    dp: Option<Seq<char>>,
    product: Option<Seq<char>>,
    model: Option<Seq<char>>,
    device: Option<Seq<char>>,
)
    requires
        opt_token_wf(dp),
        opt_token_wf(product),
        opt_token_wf(model),
        opt_token_wf(device),
        (product is Some || model is Some || device is Some) ==> dp is Some,
    ensures
        attrs_tail(dp, product, model, device).len() == 0 ==> (dp is None && product is None
            && model is None && device is None),
        attrs_tail(dp, product, model, device).len() > 0 ==> spec_attrs(
            attrs_tail(dp, product, model, device),
        ) == (dp, product, model, device),
{
    reveal_strlit(" product:");
    reveal_strlit(" model:");
    reveal_strlit(" device:");
    match dp {
        None => {
        },
        Some(p) => {
            let tok_p = attr_tok(" product:"@, product);
            let tok_m = attr_tok(" model:"@, model);
            let tok_d = attr_tok(" device:"@, device);
            let tail = attrs_tail(dp, product, model, device);
            assert(tail =~= p + (tok_p + tok_m + tok_d));
            let k = p.len() as int;
            // the device path is the leading non-space run
            assert forall|q: int| 0 <= q < k implies tail[q] != ' ' by {
                assert(tail[q] == p[q]);
            }
            if k < tail.len() {
                assert(tail[k] == (tok_p + tok_m + tok_d)[0]);
                if product is Some {
                    assert(tok_p[0] == ' ');
                } else if model is Some {
                    assert(tok_m[0] == ' ');
                } else {
                    assert(tok_d[0] == ' ');
                }
            }
            lemma_nonspace_run_exact(tail, 0, k);
            assert(tail.take(k) =~= p);
            // the three keyed attributes in order
            assert(tail.skip(k) =~= tok_p + (tok_m + tok_d));
            if product is None {
                lemma_key_not_here(tail, k, " product:"@, tok_m, tok_d);
            }
            lemma_attr_step(tail, k, " product:"@, product, tok_m + tok_d);
            let p1 = k + tok_p.len() as int;
            assert(tail.skip(p1) =~= tok_m + tok_d) by {
                assert(tail.skip(k).skip(tok_p.len() as int) =~= tok_m + tok_d);
                assert(tail.skip(k).skip(tok_p.len() as int) =~= tail.skip(p1));
            }
            if model is None {
                lemma_key_not_here(tail, p1, " model:"@, tok_d, Seq::<char>::empty());
            }
            lemma_attr_step(tail, p1, " model:"@, model, tok_d);
            let p2 = p1 + tok_m.len() as int;
            assert(tail.skip(p2) =~= tok_d) by {
                assert(tail.skip(p1).skip(tok_m.len() as int) =~= tok_d);
                assert(tail.skip(p1).skip(tok_m.len() as int) =~= tail.skip(p2));
            }
            if device is None {
                lemma_key_not_here(tail, p2, " device:"@, Seq::<char>::empty(), Seq::<char>::empty());
            }
            lemma_attr_step(tail, p2, " device:"@, device, Seq::<char>::empty());
        },
    }
}

/// Where an attribute was not written, its key does not stand at the
/// position: what follows is the next tokens, each of which begins with a
/// different key or is empty.
proof fn lemma_key_not_here(s: Seq<char>, pos: int, key: Seq<char>, tok_a: Seq<char>, tok_b: Seq<char>)
    requires
        0 <= pos <= s.len(),
        s.skip(pos) =~= tok_a + tok_b,
        key.len() >= 2,
        key[0] == ' ',
        tok_a.len() == 0 || (tok_a.len() > 1 && tok_a[1] != key[1]),
        tok_b.len() == 0 || (tok_b.len() > 1 && tok_b[1] != key[1]),
    ensures
        !(pos + key.len() <= s.len() && s.subrange(pos, pos + key.len()) == key),
{
    if pos + key.len() <= s.len() && s.subrange(pos, pos + key.len()) == key {
        assert(s.skip(pos).len() >= key.len());
        assert(tok_a.len() + tok_b.len() >= 2);
        assert(s.subrange(pos, pos + key.len())[1] == s[pos + 1]);
        assert(s[pos + 1] == s.skip(pos)[1]);
        if tok_a.len() == 0 {
            assert(s.skip(pos)[1] == tok_b[1]);
        } else {
            assert(s.skip(pos)[1] == tok_a[1]);
        }
    }
}

// ---------------------------------------------------------------------------
// the whole list
// ---------------------------------------------------------------------------

/// What the whole `host:devices-l` body means: records in input order, one
/// per non-empty LF-separated line, and the first bad line's error.
pub open spec fn spec_parse_device_list(s: Seq<char>) -> Result<
    Seq<DeviceDescriptionView>,
    ErrorView,
>
    decreases s.len(),
{
    if s.len() == 0 {
        Ok(Seq::<DeviceDescriptionView>::empty())
    } else {
        let nl = find_char_at(s, '\n');
        if nl < 0 || nl >= s.len() {
            // the whole remainder is the last line
            if s.len() == 0 {
                Ok(Seq::<DeviceDescriptionView>::empty())
            } else {
                match spec_parse_line(s) {
                    Ok(d) => Ok(seq![d]),
                    Err(e) => Err(e),
                }
            }
        } else {
            let line = s.take(nl);
            let rest = s.skip(nl + 1);
            if line.len() == 0 {
                spec_parse_device_list(rest)
            } else {
                match spec_parse_line(line) {
                    Ok(d) => match spec_parse_device_list(rest) {
                        Ok(t) => Ok(seq![d] + t),
                        Err(e) => Err(e),
                    },
                    Err(e) => Err(e),
                }
            }
        }
    }
}

/// The views of a vector of device records.
pub open spec fn descs_view(v: Seq<DeviceDescription>) -> Seq<DeviceDescriptionView> {
    v.map(|i: int, d: DeviceDescription| d@)
}

/// One step of the list: with the first line known to span `pos..e`, the
/// suffix's meaning unfolds into that line's record and the rest.
proof fn lemma_list_step(s: Seq<char>, pos: int, e: int)
    requires
        0 <= pos < s.len(),
        pos <= e <= s.len(),
        forall|q: int| pos <= q < e ==> s[q] != '\n',
        e == s.len() || s[e] == '\n',
    ensures
        spec_parse_device_list(s.skip(pos)) == (if e == s.len() {
            match spec_parse_line(s.subrange(pos, e)) {
                Ok(d) => Ok::<_, ErrorView>(seq![d]),
                Err(err) => Err::<Seq<DeviceDescriptionView>, _>(err),
            }
        } else if e == pos {
            spec_parse_device_list(s.skip(e + 1))
        } else {
            match spec_parse_line(s.subrange(pos, e)) {
                Ok(d) => match spec_parse_device_list(s.skip(e + 1)) {
                    Ok(t) => Ok::<_, ErrorView>(seq![d] + t),
                    Err(err) => Err::<Seq<DeviceDescriptionView>, _>(err),
                },
                Err(err) => Err::<Seq<DeviceDescriptionView>, _>(err),
            }
        }),
{
    let suffix = s.skip(pos);
    lemma_find_char_at_correct(suffix, '\n');
    assert(suffix.len() == s.len() - pos);
    assert(forall|q: int| 0 <= q < suffix.len() ==> suffix[q] == s[pos + q]);
    let f = find_char_at(suffix, '\n');
    if e == s.len() {
        assert(f == -1) by {
            if f >= 0 {
                assert(suffix[f] == '\n');
                assert(s[pos + f] != '\n');
            }
        }
        assert(suffix =~= s.subrange(pos, e));
    } else {
        assert(f == e - pos) by {
            assert(suffix[e - pos] == '\n');
            if f == -1 {
                assert(suffix[e - pos] != '\n');
            } else if f < e - pos {
                assert(suffix[f] == '\n');
                assert(s[pos + f] != '\n');
            } else if f > e - pos {
                assert(suffix[e - pos] != '\n');
            }
        }
        assert(suffix.take(f) =~= s.subrange(pos, e));
        assert(suffix.skip(f + 1) =~= s.skip(e + 1));
    }
}

/// Parses the body returned by `host:devices-l`.
#[verifier::rlimit(50)]
pub fn parse_device_list(s: &str) -> (r: Result<Vec<DeviceDescription>, Error>)
    ensures
        r matches Ok(v) ==> spec_parse_device_list(s@) == Ok::<_, ErrorView>(descs_view(v@)),
        r matches Err(e) ==> spec_parse_device_list(s@) == Err::<Seq<DeviceDescriptionView>, _>(
            e@,
        ),
{
    let n = s.unicode_len();
    let mut result: Vec<DeviceDescription> = Vec::new();
    let mut pos: usize = 0;
    proof {
        assert(s@.skip(0) =~= s@);
        match spec_parse_device_list(s@) {
            Ok(t) => {
                assert(descs_view(result@) + t =~= t);
            },
            Err(_) => {},
        }
    }
    while pos < n
        invariant
            n == s@.len(),
            pos <= n,
            match spec_parse_device_list(s@.skip(pos as int)) {
                Ok(t) => spec_parse_device_list(s@) == Ok::<_, ErrorView>(
                    descs_view(result@) + t,
                ),
                Err(e) => spec_parse_device_list(s@) == Err::<Seq<DeviceDescriptionView>, _>(e),
            },
        decreases n - pos,
    {
        let mut e = pos;
        while e < n && s.get_char(e) != '\n'
            invariant
                n == s@.len(),
                pos <= e <= n,
                forall|q: int| pos <= q < e ==> s@[q] != '\n',
            decreases n - e,
        {
            e = e + 1;
        }
        proof {
            lemma_list_step(s@, pos as int, e as int);
        }
        if e > pos {
            let line = s.substring_char(pos, e);
            match parse_device_line(line) {
                Ok(d) => {
                    let ghost old_views = descs_view(result@);
                    result.push(d);
                    proof {
                        assert(descs_view(result@) =~= old_views + seq![d@]);
                        if e < n {
                            match spec_parse_device_list(s@.skip(e as int + 1)) {
                                Ok(t2) => {
                                    assert(old_views + (seq![d@] + t2) =~= (old_views + seq![d@])
                                        + t2);
                                },
                                Err(_) => {},
                            }
                        } else {
                            assert(s@.skip(n as int).len() == 0);
                            assert((old_views + seq![d@]) + Seq::<
                                DeviceDescriptionView,
                            >::empty() =~= old_views + seq![d@]);
                        }
                    }
                },
                Err(err) => {
                    return Err(err);
                },
            }
        }
        if e == n {
            pos = n;
        } else {
            pos = e + 1;
        }
    }
    proof {
        assert(s@.skip(n as int).len() == 0);
        assert(descs_view(result@) + Seq::<DeviceDescriptionView>::empty() =~= descs_view(
            result@,
        ));
    }
    Ok(result)
}

} // verus!
