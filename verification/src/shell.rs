//! The shell v2 protocol: typed events, their wire framing, and the
//! service-name builder.
//!
//! Each packet on the wire is one id byte, a little-endian 32-bit payload
//! length, and the payload.  The client writes stdin, close-stdin and
//! window-size events; the server writes stdout, stderr and exit events.

use vstd::prelude::*;
use vstd::string::*;

use crate::digits::fmt_u64;
use crate::digits::le4_seq;
use crate::digits::le4_bytes;
use crate::digits::le_val;
use crate::digits::le_u32;
use crate::digits::lemma_le4_val;
use crate::digits::spec_dec_str;
use crate::error::Error;
use crate::error::ErrorView;
use crate::framing::append_slice;
use crate::framing::copy_range;

verus! {

/// Events transmitted from the shell client to the shell service.
#[derive(Debug, PartialEq, Eq)]
pub enum ShellInput {
    /// A chunk of standard input.
    Stdin(Vec<u8>),
    /// Standard input is finished.
    CloseStdin,
    /// The controlling terminal was resized.
    WindowSizeChange { rows: u16, cols: u16, xpixels: u16, ypixels: u16 },
}

/// The mathematical value of a [`ShellInput`].
pub enum ShellInputView {
    Stdin { data: Seq<u8> },
    CloseStdin,
    WindowSizeChange { rows: u16, cols: u16, xpixels: u16, ypixels: u16 },
}

impl View for ShellInput {
    type V = ShellInputView;

    open spec fn view(&self) -> ShellInputView {
        match self {
            ShellInput::Stdin(data) => ShellInputView::Stdin { data: data@ },
            ShellInput::CloseStdin => ShellInputView::CloseStdin,
            ShellInput::WindowSizeChange { rows, cols, xpixels, ypixels } => {
                ShellInputView::WindowSizeChange {
                    rows: *rows,
                    cols: *cols,
                    xpixels: *xpixels,
                    ypixels: *ypixels,
                }
            },
        }
    }
}

/// Events transmitted from the shell service to the shell client.
#[derive(Debug, PartialEq, Eq)]
pub enum ShellOutput {
    /// A chunk of the remote standard output.
    Stdout(Vec<u8>),
    /// A chunk of the remote standard error.
    Stderr(Vec<u8>),
    /// The remote command finished with this status; no event follows it.
    Exit(u8),
}

/// The mathematical value of a [`ShellOutput`].
pub enum ShellOutputView {
    Stdout { data: Seq<u8> },
    Stderr { data: Seq<u8> },
    Exit { code: u8 },
}

impl View for ShellOutput {
    type V = ShellOutputView;

    open spec fn view(&self) -> ShellOutputView {
        match self {
            ShellOutput::Stdout(data) => ShellOutputView::Stdout { data: data@ },
            ShellOutput::Stderr(data) => ShellOutputView::Stderr { data: data@ },
            ShellOutput::Exit(code) => ShellOutputView::Exit { code: *code },
        }
    }
}

// ---------------------------------------------------------------------------
// the wire framing
// ---------------------------------------------------------------------------

/// The bytes a client event puts on the wire.  Stdin is packet id 0 and
/// close-stdin packet id 4 with an empty payload; a window-size change has
/// no wire form yet and is dropped silently.
pub open spec fn input_frame(i: ShellInputView) -> Seq<u8> {
    match i {
        ShellInputView::Stdin { data } => seq![0u8] + le4_seq(data.len()) + data,
        ShellInputView::CloseStdin => seq![4u8] + le4_seq(0),
        ShellInputView::WindowSizeChange { .. } => Seq::<u8>::empty(),
    }
}

/// The bytes a server event puts on the wire: stdout is packet id 1, stderr
/// id 2, and exit id 3 with a single status byte.
pub open spec fn output_frame(o: ShellOutputView) -> Seq<u8> {
    match o {
        ShellOutputView::Stdout { data } => seq![1u8] + le4_seq(data.len()) + data,
        ShellOutputView::Stderr { data } => seq![2u8] + le4_seq(data.len()) + data,
        ShellOutputView::Exit { code } => seq![3u8] + le4_seq(1) + seq![code],
    }
}

/// Law: writing a shell input emits exactly the framing the protocol
/// defines.  After a close-stdin frame the writer also half-closes its
/// socket, which puts no further bytes on the wire.
pub fn encode_shell_input(event: &ShellInput) -> (r: Vec<u8>)
    requires
        event@ matches ShellInputView::Stdin { data } ==> data.len() <= u32::MAX,
    ensures
        r@ == input_frame(event@),
{
    match event {
        ShellInput::Stdin(data) => {
            let mut r: Vec<u8> = Vec::new();
            r.push(0);
            let len_bytes = le4_bytes(data.len() as u32);
            append_slice(&mut r, len_bytes.as_slice());
            append_slice(&mut r, data.as_slice());
            proof {
                assert(r@ =~= seq![0u8] + le4_seq(data@.len()) + data@);
            }
            r
        },
        ShellInput::CloseStdin => {
            let mut r: Vec<u8> = Vec::new();
            r.push(4);
            let len_bytes = le4_bytes(0);
            append_slice(&mut r, len_bytes.as_slice());
            proof {
                assert(r@ =~= seq![4u8] + le4_seq(0));
            }
            r
        },
        ShellInput::WindowSizeChange { .. } => {
            let r: Vec<u8> = Vec::new();
            proof {
                assert(r@ =~= Seq::<u8>::empty());
            }
            r
        },
    }
}

// ---------------------------------------------------------------------------
// reading server packets
// ---------------------------------------------------------------------------

pub open spec fn header_eof_msg() -> Seq<char> {
    "failed to read shell packet header"@
}

pub open spec fn length_eof_msg() -> Seq<char> {
    "failed to read shell data length"@
}

pub open spec fn data_eof_msg() -> Seq<char> {
    "failed to read shell data"@
}

pub open spec fn stray_stdin_msg() -> Seq<char> {
    "received unexpected Stdin packet from device"@
}

pub open spec fn stray_close_msg() -> Seq<char> {
    "received unexpected CloseStdin packet from device"@
}

pub open spec fn exit_size_msg(n: nat) -> Seq<char> {
    "received exit packet with incorrect size: "@ + spec_dec_str(n)
}

pub open spec fn unknown_id_msg(id: u8) -> Seq<char> {
    "received unexpected packet from device: "@ + spec_dec_str(id as nat)
}

/// What one received packet means: ids 1, 2 and 3 are the server's events,
/// an exit packet must carry exactly one byte, ids 0 and 4 belong to the
/// client, and any other id is unknown.
pub open spec fn spec_classify_packet(id: u8, data: Seq<u8>) -> Result<
    ShellOutputView,
    ErrorView,
> {
    if id == 0 {
        Err(ErrorView::UnexpectedData { msg: stray_stdin_msg() })
    } else if id == 1 {
        Ok(ShellOutputView::Stdout { data })
    } else if id == 2 {
        Ok(ShellOutputView::Stderr { data })
    } else if id == 3 {
        if data.len() != 1 {
            Err(ErrorView::UnexpectedData { msg: exit_size_msg(data.len()) })
        } else {
            Ok(ShellOutputView::Exit { code: data[0] })
        }
    } else if id == 4 {
        Err(ErrorView::UnexpectedData { msg: stray_close_msg() })
    } else {
        Err(ErrorView::UnexpectedData { msg: unknown_id_msg(id) })
    }
}

/// Classifies one received packet, already split into id and payload.
pub fn classify_shell_packet(id: u8, data: Vec<u8>) -> (r: Result<ShellOutput, Error>)
    ensures
        r matches Ok(o) ==> spec_classify_packet(id, data@) == Ok::<_, ErrorView>(o@),
        r matches Err(e) ==> spec_classify_packet(id, data@) == Err::<ShellOutputView, _>(e@),
{
    if id == 0 {
        Err(Error::UnexpectedData(String::from_str("received unexpected Stdin packet from device")))
    } else if id == 1 {
        Ok(ShellOutput::Stdout(data))
    } else if id == 2 {
        Ok(ShellOutput::Stderr(data))
    } else if id == 3 {
        if data.len() != 1 {
            let msg = String::from_str("received exit packet with incorrect size: ").concat(
                fmt_u64(data.len() as u64).as_str(),
            );
            Err(Error::UnexpectedData(msg))
        } else {
            Ok(ShellOutput::Exit(data[0]))
        }
    } else if id == 4 {
        Err(
            Error::UnexpectedData(
                String::from_str("received unexpected CloseStdin packet from device"),
            ),
        )
    } else {
        let msg = String::from_str("received unexpected packet from device: ").concat(
            fmt_u64(id as u64).as_str(),
        );
        Err(Error::UnexpectedData(msg))
    }
}

/// What reading one server packet at `pos` yields: the event and the
/// position after it.  A transcript that ends inside the header, the length
/// or the payload is the same `UnexpectedData` failure that a broken read
/// gives, because the framing makes the read atomic.
pub open spec fn spec_parse_frame(s: Seq<u8>, pos: int) -> Result<(ShellOutputView, int), ErrorView> {
    if s.len() - pos < 1 {
        Err(ErrorView::UnexpectedData { msg: header_eof_msg() })
    } else if s.len() - pos - 1 < 4 {
        Err(ErrorView::UnexpectedData { msg: length_eof_msg() })
    } else {
        let id = s[pos];
        let n = le_val(s.subrange(pos + 1, pos + 5)) as int;
        if s.len() - pos - 5 < n {
            Err(ErrorView::UnexpectedData { msg: data_eof_msg() })
        } else {
            match spec_classify_packet(id, s.subrange(pos + 5, pos + 5 + n)) {
                Ok(o) => Ok((o, pos + 5 + n)),
                Err(e) => Err(e),
            }
        }
    }
}

/// Reads one server packet from the transcript at `pos`.
pub fn parse_shell_frame(buf: &[u8], pos: usize) -> (r: Result<(ShellOutput, usize), Error>)
    requires
        pos <= buf@.len(),
    ensures
        r matches Ok(p) ==> (spec_parse_frame(buf@, pos as int) matches Ok(sp) && p.0@ == sp.0
            && p.1 as int == sp.1 && pos < p.1 <= buf@.len()),
        r matches Err(e) ==> (spec_parse_frame(buf@, pos as int) matches Err(se) && e@ == se),
{
    if buf.len() - pos < 1 {
        return Err(Error::UnexpectedData(String::from_str("failed to read shell packet header")));
    }
    if buf.len() - pos - 1 < 4 {
        return Err(Error::UnexpectedData(String::from_str("failed to read shell data length")));
    }
    let id = buf[pos];
    let len_bytes = copy_range(buf, pos + 1, pos + 5);
    let n = le_u32(len_bytes.as_slice());
    if ((buf.len() - pos - 5) as u64) < (n as u64) {
        return Err(Error::UnexpectedData(String::from_str("failed to read shell data")));
    }
    let n = n as usize;
    let data = copy_range(buf, pos + 5, pos + 5 + n);
    match classify_shell_packet(id, data) {
        Ok(o) => Ok((o, pos + 5 + n)),
        Err(e) => Err(e),
    }
}

// ---------------------------------------------------------------------------
// the stream of server events
// ---------------------------------------------------------------------------

/// A server event whose payload the framing can carry.
pub open spec fn output_wf(o: ShellOutputView) -> bool {
    match o {
        ShellOutputView::Stdout { data } => data.len() <= u32::MAX,
        ShellOutputView::Stderr { data } => data.len() <= u32::MAX,
        ShellOutputView::Exit { .. } => true,
    }
}

/// The bytes a conformant server puts on the wire for a sequence of events.
pub open spec fn wire_of_outputs(evs: Seq<ShellOutputView>) -> Seq<u8>
    decreases evs.len(),
{
    if evs.len() == 0 {
        Seq::<u8>::empty()
    } else {
        output_frame(evs[0]) + wire_of_outputs(evs.drop_first())
    }
}

/// Where the `i`-th event's frame starts on the wire.
pub open spec fn wire_offset(evs: Seq<ShellOutputView>, i: int) -> int {
    wire_of_outputs(evs.take(i)).len() as int
}

proof fn lemma_parse_one_frame(o: ShellOutputView, rest: Seq<u8>)
    requires
        output_wf(o),
    ensures
        spec_parse_frame(output_frame(o) + rest, 0) == Ok::<_, ErrorView>(
            (o, output_frame(o).len() as int),
        ),
{
    let f = output_frame(o);
    let s = f + rest;
    match o {
        ShellOutputView::Stdout { data } => {
            lemma_le4_val(data.len());
            assert(s[0] == 1);
            assert(s.subrange(1, 5) =~= le4_seq(data.len()));
            assert(s.subrange(5, 5 + data.len() as int) =~= data);
        },
        ShellOutputView::Stderr { data } => {
            lemma_le4_val(data.len());
            assert(s[0] == 2);
            assert(s.subrange(1, 5) =~= le4_seq(data.len()));
            assert(s.subrange(5, 5 + data.len() as int) =~= data);
        },
        ShellOutputView::Exit { code } => {
            lemma_le4_val(1);
            assert(s[0] == 3);
            assert(s.subrange(1, 5) =~= le4_seq(1));
            assert(s.subrange(5, 6) =~= seq![code]);
            assert(s.subrange(5, 6).len() == 1);
        },
    }
}

proof fn lemma_parse_frame_shift(a: Seq<u8>, b: Seq<u8>, p: int)
    requires
        0 <= p <= b.len(),
        spec_parse_frame(b, p) is Ok,
    ensures
        spec_parse_frame(a + b, a.len() + p) == match spec_parse_frame(b, p) {
            Ok(oq) => Ok::<_, ErrorView>((oq.0, a.len() + oq.1)),
            Err(e) => Err(e),
        },
{
    let s = a + b;
    let q = a.len() + p;
    assert(s.len() - q == b.len() - p);
    assert(b.len() - p >= 5);
    assert(s[q] == b[p]);
    assert(s.subrange(q + 1, q + 5) =~= b.subrange(p + 1, p + 5));
    let n = le_val(b.subrange(p + 1, p + 5)) as int;
    assert(b.len() - p - 5 >= n);
    assert(s.subrange(q + 5, q + 5 + n) =~= b.subrange(p + 5, p + 5 + n));
}

/// Law: a conformant server's events are read back in order.  For every
/// well-formed event sequence, parsing the wire at the `i`-th frame boundary
/// yields the `i`-th event and the next boundary; a reader that starts at
/// the beginning and stops at the first `Exit` therefore sees exactly the
/// events up to and including it, in the order the server framed them.
pub proof fn lemma_shell_stream_in_order(evs: Seq<ShellOutputView>, i: int)
    requires
        forall|j: int| 0 <= j < evs.len() ==> output_wf(#[trigger] evs[j]),
        0 <= i < evs.len(),
    ensures
        spec_parse_frame(wire_of_outputs(evs), wire_offset(evs, i)) == Ok::<_, ErrorView>(
            (evs[i], wire_offset(evs, i + 1)),
        ),
    decreases i,
{
    let f0 = output_frame(evs[0]);
    let w = wire_of_outputs(evs);
    let tail = evs.drop_first();
    if i == 0 {
        assert(evs.take(0) =~= Seq::<ShellOutputView>::empty());
        assert(wire_offset(evs, 0) == 0);
        lemma_parse_one_frame(evs[0], wire_of_outputs(tail));
        assert(evs.take(1).drop_first() =~= Seq::<ShellOutputView>::empty());
        assert(evs.take(1)[0] == evs[0]);
        assert(wire_of_outputs(evs.take(1)) =~= f0);
    } else {
        assert(forall|j: int|
            0 <= j < tail.len() ==> output_wf(#[trigger] tail[j]) && tail[j] == evs[j + 1]);
        lemma_shell_stream_in_order(tail, i - 1);
        // the i-th offset is the first frame plus the (i-1)-th offset of the tail
        assert(evs.take(i).drop_first() =~= tail.take(i - 1));
        assert(evs.take(i)[0] == evs[0]);
        assert(wire_of_outputs(evs.take(i)) =~= f0 + wire_of_outputs(tail.take(i - 1)));
        assert(evs.take(i + 1).drop_first() =~= tail.take(i));
        assert(evs.take(i + 1)[0] == evs[0]);
        assert(wire_of_outputs(evs.take(i + 1)) =~= f0 + wire_of_outputs(tail.take(i)));
        // offsets sit inside the tail's wire
        lemma_wire_offset_bounds(tail, i - 1);
        lemma_parse_frame_shift(f0, wire_of_outputs(tail), wire_offset(tail, i - 1));
        assert(evs[i] == tail[i - 1]);
    }
}

/// Frame boundaries lie within the wire.
proof fn lemma_wire_offset_bounds(evs: Seq<ShellOutputView>, i: int)
    requires
        0 <= i <= evs.len(),
    ensures
        0 <= wire_offset(evs, i) <= wire_of_outputs(evs).len(),
    decreases i,
{
    if i == 0 {
        assert(evs.take(0) =~= Seq::<ShellOutputView>::empty());
    } else {
        let tail = evs.drop_first();
        lemma_wire_offset_bounds(tail, i - 1);
        assert(evs.take(i).drop_first() =~= tail.take(i - 1));
        assert(evs.take(i)[0] == evs[0]);
        assert(wire_of_outputs(evs.take(i)) =~= output_frame(evs[0]) + wire_of_outputs(
            tail.take(i - 1),
        ));
    }
}

// ---------------------------------------------------------------------------
// the raw (pre-v2) shell
// ---------------------------------------------------------------------------

/// The bytes a client event puts on a raw shell's wire: stdin passes
/// through unframed, close-stdin half-closes the socket without writing,
/// and a window-size change is dropped.
pub open spec fn raw_input_bytes(i: ShellInputView) -> Seq<u8> {
    match i {
        ShellInputView::Stdin { data } => data,
        ShellInputView::CloseStdin => Seq::<u8>::empty(),
        ShellInputView::WindowSizeChange { .. } => Seq::<u8>::empty(),
    }
}

/// Law: a raw shell writes stdin bytes through unchanged and nothing else.
pub fn encode_raw_input(event: ShellInput) -> (r: Vec<u8>)
    ensures
        r@ == raw_input_bytes(event@),
{
    match event {
        ShellInput::Stdin(data) => data,
        ShellInput::CloseStdin => Vec::new(),
        ShellInput::WindowSizeChange { .. } => Vec::new(),
    }
}

/// What a raw shell's read means: bytes are stdout, and the end of the
/// stream is a synthetic exit with status 1, because the raw protocol
/// carries no exit code.  The embedding program hands in what one read
/// returned, an empty chunk standing for the end of the stream or a broken
/// read.
pub fn raw_read_event(data: Vec<u8>) -> (r: ShellOutput)
    ensures
        data@.len() == 0 ==> r@ == (ShellOutputView::Exit { code: 1 }),
        data@.len() > 0 ==> r@ == (ShellOutputView::Stdout { data: data@ }),
{
    if data.len() == 0 {
        ShellOutput::Exit(1)
    } else {
        ShellOutput::Stdout(data)
    }
}

// ---------------------------------------------------------------------------
// the service-name builder
// ---------------------------------------------------------------------------

/// Joins command words with single spaces.
pub open spec fn join_spaces(cmds: Seq<Seq<char>>) -> Seq<char>
    decreases cmds.len(),
{
    if cmds.len() == 0 {
        Seq::<char>::empty()
    } else if cmds.len() == 1 {
        cmds[0]
    } else {
        join_spaces(cmds.drop_last()) + " "@ + cmds.last()
    }
}

/// The view of an optional command vector.
pub open spec fn opt_cmds_view(v: Option<Vec<String>>) -> Option<Seq<Seq<char>>> {
    match v {
        Some(c) => Some(c@.map(|i: int, s: String| s@)),
        None => None,
    }
}

/// The view of an optional string.
pub open spec fn opt_term_view(o: Option<String>) -> Option<Seq<char>> {
    match o {
        Some(s) => Some(s@),
        None => None,
    }
}

/// Builder for a shell connection's service name.
///
/// `shell_protocol` must be set by the caller: detecting the server's
/// support is a non-goal.  The others default: no command means an
/// interactive shell, no tty, no terminal name.
#[derive(Debug)]
pub struct ShellBuilder {
    command: Option<Vec<String>>,
    shell_protocol: Option<bool>,
    term: Option<String>,
    tty: Option<bool>,
}

/// The mathematical value of a [`ShellBuilder`].
pub struct ShellBuilderView {
    pub command: Option<Seq<Seq<char>>>,
    pub shell_protocol: Option<bool>,
    pub term: Option<Seq<char>>,
    pub tty: Option<bool>,
}

impl View for ShellBuilder {
    type V = ShellBuilderView;

    closed spec fn view(&self) -> ShellBuilderView {
        ShellBuilderView {
            command: opt_cmds_view(self.command),
            shell_protocol: self.shell_protocol,
            term: opt_term_view(self.term),
            tty: self.tty,
        }
    }
}

/// The service name the builder settings ask for.  With the shell protocol
/// on it is `shell,v2`, the terminal name when a tty was asked for, `,pty`
/// or `,raw`, a colon, and the command; without it, `shell:` and the
/// command.  An unset `shell_protocol` is the `UnimplementedOperation`
/// outcome.
pub open spec fn spec_service_string(b: ShellBuilderView) -> Result<Seq<char>, ErrorView> {
    match b.shell_protocol {
        None => Err(
            ErrorView::UnimplementedOperation { msg: "feature detection not implemented yet"@ },
        ),
        Some(true) => {
            let tty_on = b.tty == Some(true);
            let base = "shell,v2"@;
            let with_term = if tty_on {
                match b.term {
                    Some(t) => base + ",TERM="@ + t,
                    None => base,
                }
            } else {
                base
            };
            let with_mode = if tty_on {
                with_term + ",pty"@
            } else {
                with_term + ",raw"@
            };
            let cmd = match b.command {
                Some(c) => join_spaces(c),
                None => Seq::<char>::empty(),
            };
            Ok(with_mode + ":"@ + cmd)
        },
        Some(false) => {
            let cmd = match b.command {
                Some(c) => join_spaces(c),
                None => Seq::<char>::empty(),
            };
            Ok("shell:"@ + cmd)
        },
    }
}

fn join_cmd(cmd: &Vec<String>) -> (r: String)
    ensures
        r@ == join_spaces(cmd@.map(|i: int, s: String| s@)),
{
    let ghost view = cmd@.map(|i: int, s: String| s@);
    if cmd.len() == 0 {
        let r = String::new();
        proof {
            assert(view.len() == 0);
        }
        return r;
    }
    let mut acc = cmd[0].clone();
    let mut i: usize = 1;
    proof {
        assert(view.take(1).len() == 1);
        assert(view.take(1)[0] == view[0]);
        assert(acc@ == join_spaces(view.take(1)));
    }
    while i < cmd.len()
        invariant
            1 <= i <= cmd@.len(),
            view == cmd@.map(|i: int, s: String| s@),
            acc@ == join_spaces(view.take(i as int)),
        decreases cmd@.len() - i,
    {
        acc.append(" ");
        acc.append(cmd[i].as_str());
        proof {
            reveal_strlit(" ");
            assert(view.take(i as int + 1).drop_last() =~= view.take(i as int));
            assert(view.take(i as int + 1).last() == view[i as int]);
            assert(acc@ =~= join_spaces(view.take(i as int)) + " "@ + view[i as int]);
        }
        i = i + 1;
    }
    proof {
        assert(view.take(view.len() as int) =~= view);
    }
    acc
}

impl ShellBuilder {
    /// A builder with nothing set.
    pub fn new() -> (r: ShellBuilder)
        ensures
            r@ == (ShellBuilderView { command: None, shell_protocol: None, term: None, tty: None }),
    {
        ShellBuilder { command: None, shell_protocol: None, term: None, tty: None }
    }

    /// The command to run; `None` asks for an interactive shell.
    pub fn command(self, cmd: Option<Vec<String>>) -> (r: ShellBuilder)
        ensures
            r@ == (ShellBuilderView { command: opt_cmds_view(cmd), ..self@ }),
    {
        ShellBuilder { command: cmd, ..self }
    }

    /// Whether to speak the shell v2 protocol.  Must be set.
    pub fn shell_protocol(self, enabled: bool) -> (r: ShellBuilder)
        ensures
            r@ == (ShellBuilderView { shell_protocol: Some(enabled), ..self@ }),
    {
        ShellBuilder { shell_protocol: Some(enabled), ..self }
    }

    /// The terminal name to pass along when a tty is asked for.
    pub fn term(self, term: Option<String>) -> (r: ShellBuilder)
        ensures
            r@ == (ShellBuilderView { term: opt_term_view(term), ..self@ }),
    {
        ShellBuilder { term, ..self }
    }

    /// Whether to ask the device for a pty.
    pub fn tty(self, tty: bool) -> (r: ShellBuilder)
        ensures
            r@ == (ShellBuilderView { tty: Some(tty), ..self@ }),
    {
        ShellBuilder { tty: Some(tty), ..self }
    }

    /// The service name these settings ask for.
    pub fn service_string(&self) -> (r: Result<String, Error>)
        ensures
            r matches Ok(s) ==> spec_service_string(self@) == Ok::<_, ErrorView>(s@),
            r matches Err(e) ==> spec_service_string(self@) == Err::<Seq<char>, _>(e@),
    {
        let shell_protocol = match self.shell_protocol {
            Some(value) => value,
            None => {
                return Err(
                    Error::UnimplementedOperation(
                        String::from_str("feature detection not implemented yet"),
                    ),
                );
            },
        };
        let cmd_str = match &self.command {
            Some(c) => join_cmd(c),
            None => String::new(),
        };
        if shell_protocol {
            let tty_on = match self.tty {
                Some(t) => t,
                None => false,
            };
            let mut service = String::from_str("shell,v2");
            if tty_on {
                if let Some(term) = &self.term {
                    service.append(",TERM=");
                    service.append(term.as_str());
                }
                service.append(",pty");
            } else {
                service.append(",raw");
            }
            service.append(":");
            service.append(cmd_str.as_str());
            proof {
                match spec_service_string(self@) {
                    Ok(s) => {
                        assert(service@ =~= s);
                    },
                    Err(_) => {
                        assert(false);
                    },
                }
            }
            Ok(service)
        } else {
            let service = String::from_str("shell:").concat(cmd_str.as_str());
            proof {
                match spec_service_string(self@) {
                    Ok(s) => {
                        assert(service@ =~= s);
                    },
                    Err(_) => {
                        assert(false);
                    },
                }
            }
            Ok(service)
        }
    }
}

} // verus!
