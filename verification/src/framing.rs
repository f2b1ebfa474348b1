//! The host dialogue's framing: hex-length-prefixed payloads and the
//! OKAY/FAIL status words.
//!
//! The functions here work on complete received transcripts: a position in a
//! byte slice stands for how far the dialogue has been read.  The embedding
//! program reads from its socket until these functions have what they need.

use vstd::prelude::*;

use crate::digits::all_hex_digits;
use crate::digits::hex4_bytes;
use crate::digits::hex4_seq;
use crate::digits::hex_digit_val;
use crate::digits::hex_seq_val;
use crate::digits::is_hex_digit;
use crate::digits::lemma_hex4_val;
use crate::error::Error;
use crate::error::ErrorView;

verus! {

// ---------------------------------------------------------------------------
// byte-sequence helpers
// ---------------------------------------------------------------------------

/// `s` holds only plain ASCII bytes.
pub open spec fn is_ascii_seq(s: Seq<u8>) -> bool {
    forall|i: int| 0 <= i < s.len() ==> s[i] < 128
}

/// ASCII bytes read as characters.
pub open spec fn ascii_chars(s: Seq<u8>) -> Seq<char> {
    s.map(|i: int, b: u8| b as char)
}

/// What `String::from_utf8_lossy` returns for these bytes: a function of the
/// bytes alone.
pub uninterp spec fn lossy_utf8(bytes: Seq<u8>) -> Seq<char>;

/// Relies on std's `String::from_utf8_lossy`: the result depends on the
/// bytes alone, and valid UTF-8 — in particular plain ASCII — decodes to
/// exactly its own characters.
#[verifier::external_body]
pub fn bytes_to_string_lossy(bytes: &[u8]) -> (r: String)
    ensures
        r@ == lossy_utf8(bytes@),
        is_ascii_seq(bytes@) ==> r@ == ascii_chars(bytes@),
{
    String::from_utf8_lossy(bytes).into_owned()
}

/// Appends a slice to a byte vector.
pub fn append_slice(v: &mut Vec<u8>, s: &[u8])
    ensures
        final(v)@ == old(v)@ + s@,
{
    let mut i: usize = 0;
    proof {
        assert(v@ =~= old(v)@ + s@.take(0));
    }
    while i < s.len()
        invariant
            i <= s@.len(),
            v@ == old(v)@ + s@.take(i as int),
        decreases s@.len() - i,
    {
        v.push(s[i]);
        proof {
            assert(old(v)@ + s@.take(i as int) + seq![s@[i as int]] =~= old(v)@ + s@.take(
                i as int + 1,
            ));
        }
        i = i + 1;
    }
    proof {
        assert(s@.take(s@.len() as int) =~= s@);
    }
}

/// Copies a range of a byte slice into a fresh vector.
pub fn copy_range(buf: &[u8], from: usize, to: usize) -> (r: Vec<u8>)
    requires
        from <= to <= buf@.len(),
    ensures
        r@ == buf@.subrange(from as int, to as int),
{
    let mut r: Vec<u8> = Vec::new();
    let mut i: usize = from;
    while i < to
        invariant
            from <= i <= to <= buf@.len(),
            r@ == buf@.subrange(from as int, i as int),
        decreases to - i,
    {
        r.push(buf[i]);
        proof {
            assert(buf@.subrange(from as int, i as int) + seq![buf@[i as int]] =~= buf@.subrange(
                from as int,
                i as int + 1,
            ));
        }
        i = i + 1;
    }
    r
}

// ---------------------------------------------------------------------------
// hex-length-prefixed frames
// ---------------------------------------------------------------------------

/// A hex-length-prefixed frame: four lowercase hex digits of payload length,
/// then the payload itself.
pub open spec fn hex_prefixed(payload: Seq<u8>) -> Seq<u8> {
    hex4_seq(payload.len()) + payload
}

/// Encodes one hex-length-prefixed frame, as every host service request and
/// structured reply is framed.  Payloads are limited to `0xFFFF` bytes by
/// the four-digit prefix.
pub fn encode_hex_prefixed(payload: &[u8]) -> (r: Vec<u8>)
    requires
        payload@.len() <= 0xFFFF,
    ensures
        r@ == hex_prefixed(payload@),
{
    let mut r = hex4_bytes(payload.len() as u16);
    append_slice(&mut r, payload);
    r
}

/// The message used when a transcript ends before the framing says it may.
pub open spec fn eof_msg() -> Seq<char> {
    "unexpected end of stream"@
}

/// The message used when a length prefix is not four hex digits.
pub open spec fn bad_length_msg() -> Seq<char> {
    "invalid hex length prefix"@
}

fn hex_val_of(b: u8) -> (r: Option<u8>)
    ensures
        r matches Some(v) ==> is_hex_digit(b) && v as nat == hex_digit_val(b) && v < 16,
        r is None ==> !is_hex_digit(b),
{
    if 48 <= b && b <= 57 {
        Some(b - 48)
    } else if 97 <= b && b <= 102 {
        Some(b - 97 + 10)
    } else if 65 <= b && b <= 70 {
        Some(b - 65 + 10)
    } else {
        None
    }
}

/// Reads the four-digit length prefix at `pos`.
fn hex4_val(buf: &[u8], pos: usize) -> (r: Option<u16>)
    requires
        pos + 4 <= buf@.len(),
    ensures
        r matches Some(v) ==> all_hex_digits(buf@.subrange(pos as int, pos as int + 4)) && v as nat
            == hex_seq_val(buf@.subrange(pos as int, pos as int + 4)),
        r is None ==> !all_hex_digits(buf@.subrange(pos as int, pos as int + 4)),
{
    let ghost w = buf@.subrange(pos as int, pos as int + 4);
    let d0 = match hex_val_of(buf[pos]) {
        Some(v) => v,
        None => {
            assert(!is_hex_digit(w[0]));
            return None;
        },
    };
    let d1 = match hex_val_of(buf[pos + 1]) {
        Some(v) => v,
        None => {
            assert(!is_hex_digit(w[1]));
            return None;
        },
    };
    let d2 = match hex_val_of(buf[pos + 2]) {
        Some(v) => v,
        None => {
            assert(!is_hex_digit(w[2]));
            return None;
        },
    };
    let d3 = match hex_val_of(buf[pos + 3]) {
        Some(v) => v,
        None => {
            assert(!is_hex_digit(w[3]));
            return None;
        },
    };
    let v: u16 = ((d0 as u16) * 16 * 16 * 16) + ((d1 as u16) * 16 * 16) + ((d2 as u16) * 16) + (
    d3 as u16);
    proof {
        assert(hex_seq_val(seq![w[0]]) == hex_digit_val(w[0])) by {
            assert(seq![w[0]].drop_last() =~= Seq::<u8>::empty());
            assert(hex_seq_val(Seq::<u8>::empty()) == 0);
            assert(seq![w[0]].last() == w[0]);
        }
        assert(hex_seq_val(seq![w[0], w[1]]) == hex_digit_val(w[0]) * 16 + hex_digit_val(w[1]))
            by {
            assert(seq![w[0], w[1]].drop_last() =~= seq![w[0]]);
            assert(seq![w[0], w[1]].last() == w[1]);
        }
        assert(hex_seq_val(seq![w[0], w[1], w[2]]) == (hex_digit_val(w[0]) * 16 + hex_digit_val(
            w[1],
        )) * 16 + hex_digit_val(w[2])) by {
            assert(seq![w[0], w[1], w[2]].drop_last() =~= seq![w[0], w[1]]);
            assert(seq![w[0], w[1], w[2]].last() == w[2]);
        }
        assert(hex_seq_val(w) == ((hex_digit_val(w[0]) * 16 + hex_digit_val(w[1])) * 16
            + hex_digit_val(w[2])) * 16 + hex_digit_val(w[3])) by {
            assert(w.drop_last() =~= seq![w[0], w[1], w[2]]);
            assert(w.last() == w[3]);
        }
        assert(forall|i: int| 0 <= i < 4 ==> is_hex_digit(#[trigger] w[i]));
    }
    Some(v)
}

/// What reading one hex-length-prefixed payload at `pos` yields: the payload
/// and the position after it, an `UnexpectedData` error on a malformed
/// length prefix, or an `IoError` where the transcript ends early.
pub open spec fn spec_read_hex_payload(s: Seq<u8>, pos: int) -> Result<(Seq<u8>, int), ErrorView> {
    if s.len() - pos < 4 {
        Err(ErrorView::IoError { msg: eof_msg() })
    } else if !all_hex_digits(s.subrange(pos, pos + 4)) {
        Err(ErrorView::UnexpectedData { msg: bad_length_msg() })
    } else {
        let n = hex_seq_val(s.subrange(pos, pos + 4)) as int;
        if s.len() - pos - 4 < n {
            Err(ErrorView::IoError { msg: eof_msg() })
        } else {
            Ok((s.subrange(pos + 4, pos + 4 + n), pos + 4 + n))
        }
    }
}

/// Reads one hex-length-prefixed payload from the transcript at `pos`.
pub fn read_hex_payload(buf: &[u8], pos: usize) -> (r: Result<(Vec<u8>, usize), Error>)
    requires
        pos <= buf@.len(),
    ensures
        r matches Ok(p) ==> (spec_read_hex_payload(buf@, pos as int) matches Ok(sp) && p.0@ == sp.0
            && p.1 as int == sp.1 && pos <= p.1 <= buf@.len()),
        r matches Err(e) ==> (spec_read_hex_payload(buf@, pos as int) matches Err(se) && e@ == se),
{
    if buf.len() - pos < 4 {
        return Err(Error::IoError(String::from_str("unexpected end of stream")));
    }
    let n: u16 = match hex4_val(buf, pos) {
        Some(v) => v,
        None => {
            return Err(Error::UnexpectedData(String::from_str("invalid hex length prefix")));
        },
    };
    let n = n as usize;
    if buf.len() - pos - 4 < n {
        return Err(Error::IoError(String::from_str("unexpected end of stream")));
    }
    let payload = copy_range(buf, pos + 4, pos + 4 + n);
    Ok((payload, pos + 4 + n))
}

// ---------------------------------------------------------------------------
// the status word
// ---------------------------------------------------------------------------

/// The ASCII bytes of `OKAY`.
pub open spec fn okay_bytes() -> Seq<u8> {
    seq![79u8, 75u8, 65u8, 89u8]
}

/// The ASCII bytes of `FAIL`.
pub open spec fn fail_bytes() -> Seq<u8> {
    seq![70u8, 65u8, 73u8, 76u8]
}

/// The message used when the status word is neither OKAY nor FAIL.
pub open spec fn bad_status_msg(w: Seq<u8>) -> Seq<char> {
    "expected OKAY or FAIL, got "@ + lossy_utf8(w)
}

/// What reading a status word at `pos` yields: the position after an OKAY, a
/// `ServiceError` carrying the message of a FAIL, or `UnexpectedData` for
/// any other word.
pub open spec fn spec_expect_okay(s: Seq<u8>, pos: int) -> Result<int, ErrorView> {
    if s.len() - pos < 4 {
        Err(ErrorView::IoError { msg: eof_msg() })
    } else {
        let w = s.subrange(pos, pos + 4);
        if w == okay_bytes() {
            Ok(pos + 4)
        } else if w == fail_bytes() {
            match spec_read_hex_payload(s, pos + 4) {
                Ok(p) => Err(ErrorView::ServiceError { msg: lossy_utf8(p.0) }),
                Err(e) => Err(e),
            }
        } else {
            Err(ErrorView::UnexpectedData { msg: bad_status_msg(w) })
        }
    }
}

/// Reads the status word of a service reply from the transcript at `pos`.
pub fn expect_okay(buf: &[u8], pos: usize) -> (r: Result<usize, Error>)
    requires
        pos <= buf@.len(),
    ensures
        r matches Ok(p) ==> (spec_expect_okay(buf@, pos as int) matches Ok(sp) && p as int == sp
            && pos <= p <= buf@.len()),
        r matches Err(e) ==> (spec_expect_okay(buf@, pos as int) matches Err(se) && e@ == se),
{
    if buf.len() - pos < 4 {
        return Err(Error::IoError(String::from_str("unexpected end of stream")));
    }
    let ghost w = buf@.subrange(pos as int, pos as int + 4);
    let b0 = buf[pos];
    let b1 = buf[pos + 1];
    let b2 = buf[pos + 2];
    let b3 = buf[pos + 3];
    proof {
        assert(w[0] == b0 && w[1] == b1 && w[2] == b2 && w[3] == b3);
        assert(w.len() == 4);
    }
    if b0 == 79 && b1 == 75 && b2 == 65 && b3 == 89 {
        proof {
            assert(w =~= okay_bytes());
        }
        Ok(pos + 4)
    } else if b0 == 70 && b1 == 65 && b2 == 73 && b3 == 76 {
        proof {
            assert(w =~= fail_bytes());
            assert(w != okay_bytes()) by {
                assert(okay_bytes()[0] == 79u8);
            }
        }
        match read_hex_payload(buf, pos + 4) {
            Ok((payload, _)) => {
                let msg = bytes_to_string_lossy(payload.as_slice());
                Err(Error::ServiceError(msg))
            },
            Err(e) => Err(e),
        }
    } else {
        proof {
            assert(w != okay_bytes()) by {
                assert(okay_bytes()[0] == 79u8 && okay_bytes()[1] == 75u8 && okay_bytes()[2]
                    == 65u8 && okay_bytes()[3] == 89u8);
            }
            assert(w != fail_bytes()) by {
                assert(fail_bytes()[0] == 70u8 && fail_bytes()[1] == 65u8 && fail_bytes()[2]
                    == 73u8 && fail_bytes()[3] == 76u8);
            }
        }
        let word = copy_range(buf, pos, pos + 4);
        let shown = bytes_to_string_lossy(word.as_slice());
        let msg = String::from_str("expected OKAY or FAIL, got ").concat(shown.as_str());
        Err(Error::UnexpectedData(msg))
    }
}

/// Round trip of the framing: a frame encoded by [`encode_hex_prefixed`]
/// reads back as exactly its payload, whatever follows it.
pub proof fn lemma_hex_frame_round_trip(payload: Seq<u8>, rest: Seq<u8>)
    requires
        payload.len() <= 0xFFFF,
    ensures
        spec_read_hex_payload(hex_prefixed(payload) + rest, 0) == Ok::<_, ErrorView>(
            (payload, 4 + payload.len() as int),
        ),
{
    let s = hex_prefixed(payload) + rest;
    lemma_hex4_val(payload.len());
    assert(s.subrange(0, 4) =~= hex4_seq(payload.len()));
    assert(s.subrange(4, 4 + payload.len() as int) =~= payload);
}

} // verus!
