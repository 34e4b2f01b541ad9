//! The protocol engine: command framing and response decoding.
//!
//! Commands are ASCII text, written with a single terminator (a newline for
//! most commands, a trailing space for a few streaming writes). The
//! exchange is strictly half-duplex: a command's response is fully drained
//! before the next command is issued, because the line protocol has no
//! message ids and cannot multiplex. Each operation's contract pins, on the
//! transport's write ledger, exactly which command bytes it put on the wire.

use vstd::prelude::*;

use vstd::string::StrSliceExecFns;
use vstd::string::StringExecFns;
use vstd::utf8::decode_utf8_encode_utf8;
use vstd::utf8::encode_utf8;
use vstd::utf8::valid_utf8;

use crate::error::FocusError;
use crate::framing::clean_response;
use crate::framing::clean_spec;
use crate::framing::lemma_clean_wf;
use crate::framing::response_bytes_wf;
use crate::framing::sentinel_tail;
use crate::framing::strip_nulls;
use crate::numeric::parse_token;
use crate::numeric::parse_wire_token;
use crate::numeric::WireNumber;
use crate::transport::Transport;

verus! {

/// The bytes a command followed by a newline puts on the wire.
pub open spec fn line_cmd(cmd: Seq<char>) -> Seq<u8> {
    encode_utf8(cmd) + seq![10u8]
}

/// The bytes a streaming command followed by a single space puts on the wire.
pub open spec fn space_cmd(cmd: Seq<char>) -> Seq<u8> {
    encode_utf8(cmd) + seq![32u8]
}

/// A decoded response is well-formed: its bytes hold no sentinel occurrence
/// and no whitespace at either end.
pub open spec fn wf_response(s: Seq<char>) -> bool {
    response_bytes_wf(encode_utf8(s))
}

/// An error of the byte-transport layer: a write, flush, or read failure,
/// or a response payload that was not valid UTF-8.
pub open spec fn is_transport_error(e: FocusError) -> bool {
    e is SerialPortWriteError || e is SerialPortFlushError || e is SerialPortReadError
        || e is Utf8ConversionError
}

/// The session wrote exactly this one command between the two states.
pub open spec fn sent_exactly<T: Transport>(pre: Focus<T>, post: Focus<T>, cmd: Seq<u8>) -> bool {
    post.writes() == pre.writes().push(cmd)
}

/// The session wrote this one command, or nothing (a failure before or
/// during the write).
pub open spec fn sent_at_most<T: Transport>(pre: Focus<T>, post: Focus<T>, cmd: Seq<u8>) -> bool {
    post.writes() == pre.writes() || sent_exactly(pre, post, cmd)
}

/// Relies on std's `String::push`: appends exactly one character.
#[verifier::external_body]
fn push_char(s: &mut String, c: char)
    ensures
        final(s)@ == old(s)@ + seq![c],
{
    s.push(c);
}

pub(crate) fn str_eq_str(a: &str, b: &str) -> (r: bool)
    ensures
        r == (a@ == b@),
{
    let la = a.unicode_len();
    let lb = b.unicode_len();
    if la != lb {
        return false;
    }
    let mut i: usize = 0;
    while i < la
        invariant
            i <= la,
            la == a@.len(),
            la == b@.len(),
            forall|j: int| 0 <= j < i ==> a@[j] == b@[j],
        decreases la - i,
    {
        if a.get_char(i) != b.get_char(i) {
            return false;
        }
        i = i + 1;
    }
    proof {
        assert(a@ =~= b@);
    }
    true
}

/// What a payload means as a boolean, if anything: the exact literals
/// `0` and `false` mean false, `1` and `true` mean true.
pub open spec fn bool_of_response(s: Seq<char>) -> Option<bool> {
    if s == "0"@ || s == "false"@ {
        Some(false)
    } else if s == "1"@ || s == "true"@ {
        Some(true)
    } else {
        None
    }
}

/// Decodes a boolean response: an empty payload is an
/// [`FocusError::EmptyResponseError`], an unrecognized literal a
/// [`FocusError::ParseBoolError`].
pub fn decode_bool_response(s: &str) -> (r: Result<bool, FocusError>)
    ensures
        s@.len() == 0 ==> (r matches Err(e) && e == FocusError::EmptyResponseError),
        s@.len() > 0 ==> match bool_of_response(s@) {
            Some(b) => r matches Ok(x) && x == b,
            None => r matches Err(e) && (e matches FocusError::ParseBoolError { string }
                && string@ == s@),
        },
{
    if s.unicode_len() == 0 {
        return Err(FocusError::EmptyResponseError);
    }
    if str_eq_str(s, "0") || str_eq_str(s, "false") {
        Ok(false)
    } else if str_eq_str(s, "1") || str_eq_str(s, "true") {
        Ok(true)
    } else {
        Err(FocusError::ParseBoolError { string: s.to_owned() })
    }
}

/// The payload split on line feeds, Rust-style: no trailing empty line for
/// a trailing line feed, one line for a bare line feed.
pub open spec fn split_lines(s: Seq<char>) -> Seq<Seq<char>>
    decreases s.len(),
{
    if s.len() == 0 {
        seq![]
    } else if s[0] == '\n' {
        seq![Seq::<char>::empty()] + split_lines(s.drop_first())
    } else {
        let rest = split_lines(s.drop_first());
        if rest.len() == 0 {
            seq![seq![s[0]]]
        } else {
            seq![seq![s[0]] + rest[0]] + rest.drop_first()
        }
    }
}

/// The payload's lines with every carriage return removed.
pub open spec fn lines_of(s: Seq<char>) -> Seq<Seq<char>> {
    split_lines(s).map_values(|l: Seq<char>| l.filter(|c: char| c != '\r'))
}

proof fn lemma_split_lines_last(seg: Seq<char>)
    requires
        seg.len() > 0,
        forall|i: int| 0 <= i < seg.len() ==> seg[i] != '\n',
    ensures
        split_lines(seg) == seq![seg],
    decreases seg.len(),
{
    if seg.len() == 1 {
        assert(seg.drop_first() =~= Seq::<char>::empty());
        assert(split_lines(seg.drop_first()) =~= Seq::<Seq<char>>::empty());
        assert(split_lines(seg) =~= seq![seq![seg[0]]]);
        assert(seq![seg[0]] =~= seg);
        assert(split_lines(seg) =~= seq![seg]);
    } else {
        lemma_split_lines_last(seg.drop_first());
        assert(seq![seg[0]] + seg.drop_first() =~= seg);
        assert(split_lines(seg) =~= seq![seg]);
    }
}

proof fn lemma_split_lines_take_line(seg: Seq<char>, rest: Seq<char>)
    requires
        forall|i: int| 0 <= i < seg.len() ==> seg[i] != '\n',
    ensures
        split_lines(seg + seq!['\n'] + rest) == seq![seg] + split_lines(rest),
    decreases seg.len(),
{
    let s = seg + seq!['\n'] + rest;
    if seg.len() == 0 {
        assert(s[0] == '\n');
        assert(s.drop_first() =~= rest);
        assert(seg =~= Seq::<char>::empty());
        assert(split_lines(s) =~= seq![Seq::<char>::empty()] + split_lines(rest));
        assert(seq![Seq::<char>::empty()] =~= seq![seg]);
        assert(split_lines(s) =~= seq![seg] + split_lines(rest));
    } else {
        assert(s[0] == seg[0]);
        assert(s[0] != '\n');
        assert(s.drop_first() =~= seg.drop_first() + seq!['\n'] + rest);
        lemma_split_lines_take_line(seg.drop_first(), rest);
        let r0 = split_lines(s.drop_first());
        assert(r0 =~= seq![seg.drop_first()] + split_lines(rest));
        assert(r0.len() > 0);
        assert(r0[0] == seg.drop_first());
        assert(seq![s[0]] + r0[0] =~= seg);
        assert(r0.drop_first() =~= split_lines(rest));
        assert(split_lines(s) =~= seq![seg] + split_lines(rest));
    }
}

/// Removes every carriage return from one line.
fn filter_cr(seg: &str) -> (r: String)
    ensures
        r@ == seg@.filter(|c: char| c != '\r'),
{
    let len = seg.unicode_len();
    let mut out = String::new();
    let mut i: usize = 0;
    proof {
        assert(seg@.take(0) =~= Seq::<char>::empty());
        reveal(Seq::filter);
        assert(Seq::<char>::empty().filter(|c: char| c != '\r') =~= Seq::<char>::empty());
    }
    while i < len
        invariant
            i <= len,
            len == seg@.len(),
            out@ == seg@.take(i as int).filter(|c: char| c != '\r'),
        decreases len - i,
    {
        let c = seg.get_char(i);
        proof {
            seg@.take(i as int).lemma_filter_push(seg@[i as int], |c: char| c != '\r');
            assert(seg@.take(i + 1) =~= seg@.take(i as int).push(seg@[i as int]));
        }
        if c != '\r' {
            push_char(&mut out, c);
        }
        i = i + 1;
    }
    proof {
        assert(seg@.take(len as int) =~= seg@);
    }
    out
}

/// Splits a payload into its lines, stripping carriage returns.
pub fn decode_lines(s: &str) -> (r: Vec<String>)
    ensures
        r@.map_values(|l: String| l@) == lines_of(s@),
{
    let len = s.unicode_len();
    let mut out: Vec<String> = Vec::new();
    let mut i: usize = 0;
    let ghost fcr = |l: Seq<char>| l.filter(|c: char| c != '\r');
    let ghost fv = |l: String| l@;
    proof {
        assert(s@.skip(0) =~= s@);
        assert(lines_of(s@) =~= out@.map_values(fv) + lines_of(s@.skip(0)));
    }
    while i < len
        invariant
            i <= len,
            len == s@.len(),
            fcr == (|l: Seq<char>| l.filter(|c: char| c != '\r')),
            fv == (|l: String| l@),
            lines_of(s@) == out@.map_values(fv) + lines_of(s@.skip(i as int)),
        decreases len - i,
    {
        let mut j: usize = i;
        while j < len && s.get_char(j) != '\n'
            invariant
                i <= j <= len,
                len == s@.len(),
                forall|k: int| i <= k < j ==> s@[k] != '\n',
            decreases len - j,
        {
            j = j + 1;
        }
        let seg = s.substring_char(i, j);
        let line = filter_cr(seg);
        let ghost pre = out@;
        out.push(line);
        proof {
            let segv = s@.subrange(i as int, j as int);
            assert(out@.map_values(fv) =~= pre.map_values(fv).push(fcr(segv)));
            if j < len {
                assert(s@[j as int] == '\n');
                assert(segv + seq!['\n'] + s@.skip(j + 1) =~= s@.skip(i as int));
                lemma_split_lines_take_line(segv, s@.skip(j + 1));
                assert(split_lines(s@.skip(i as int)) =~= seq![segv] + split_lines(s@.skip(j + 1)));
                assert(lines_of(s@.skip(i as int)) =~= seq![fcr(segv)] + lines_of(s@.skip(j + 1)));
                assert(lines_of(s@) =~= out@.map_values(fv) + lines_of(s@.skip(j + 1)));
            } else {
                assert(segv =~= s@.skip(i as int));
                assert(segv.len() > 0);
                lemma_split_lines_last(segv);
                assert(lines_of(s@.skip(i as int)) =~= seq![fcr(segv)]);
                assert(s@.skip(len as int) =~= Seq::<char>::empty());
                assert(lines_of(s@.skip(len as int)) =~= Seq::<Seq<char>>::empty());
                assert(lines_of(s@) =~= out@.map_values(fv) + lines_of(s@.skip(len as int)));
            }
        }
        if j < len {
            i = j + 1;
        } else {
            i = j;
        }
    }
    proof {
        assert(s@.skip(len as int) =~= Seq::<char>::empty());
        assert(lines_of(s@.skip(len as int)) =~= Seq::<Seq<char>>::empty());
        assert(lines_of(s@) =~= out@.map_values(fv));
    }
    out
}

/// One open session speaking the protocol over a transport it exclusively
/// owns, with a reusable response buffer.
pub struct Focus<T: Transport> {
    transport: T,
    response_buffer: Vec<u8>,
}

impl<T: Transport> Focus<T> {
    /// The bytes of every write this session has performed, in order.
    pub closed spec fn writes(&self) -> Seq<Seq<u8>> {
        self.transport.writes()
    }

    /// A session over the given transport.
    pub fn from_transport(transport: T) -> (f: Focus<T>)
        ensures
            f.writes() == transport.writes(),
    {
        Focus { transport, response_buffer: Vec::new() }
    }

    /// A look at the underlying transport.
    pub fn transport_ref(&self) -> (t: &T)
        ensures
            t.writes() == self.writes(),
    {
        &self.transport
    }

    /// Writes bytes to the transport and flushes them. No retry: a failure
    /// is fatal to the in-flight operation and surfaces to the caller, a
    /// failed write as the serial write error with nothing recorded, a
    /// failed flush as the serial flush error with the bytes already out.
    pub fn write_bytes(&mut self, bytes: &[u8]) -> (r: Result<(), FocusError>)
        ensures
            r is Ok ==> final(self).writes() == old(self).writes().push(bytes@),
            r matches Err(e) ==> (e is SerialPortWriteError && final(self).writes() == old(
                self,
            ).writes()) || (e is SerialPortFlushError && final(self).writes() == old(
                self,
            ).writes().push(bytes@)),
    {
        match self.transport.write_all_bytes(bytes) {
            Ok(()) => self.transport.flush_all(),
            Err(e) => Err(e),
        }
    }

    /// Reads one framed response: accumulates chunks (stripping null
    /// padding) until the buffer ends with the sentinel, then removes every
    /// sentinel occurrence, trims ASCII whitespace, and decodes as UTF-8.
    /// An empty string is a valid "acknowledgement, no payload" result.
    pub fn read_string(&mut self) -> (r: Result<String, FocusError>)
        ensures
            final(self).writes() == old(self).writes(),
            r matches Ok(s) ==> wf_response(s@),
            r matches Err(e) ==> e is SerialPortReadError || e is Utf8ConversionError,
    {
        self.response_buffer.clear();
        // Each read blocks for at most the port's timeout, and a response
        // never needs this many chunks: past the cap the session is
        // desynchronized and the read is treated as fatal.
        let mut attempts_left: usize = 1048576;
        loop
            invariant
                self.transport.writes() == old(self).writes(),
            decreases attempts_left,
        {
            if attempts_left == 0 {
                return Err(
                    FocusError::SerialPortReadError(
                        String::from_str("response never terminated"),
                    ),
                );
            }
            attempts_left = attempts_left - 1;
            match self.transport.read_chunk() {
                Ok(chunk) => {
                    let mut cleaned = strip_nulls(&chunk);
                    self.response_buffer.append(&mut cleaned);
                    if sentinel_tail(&self.response_buffer) {
                        break;
                    }
                },
                Err(e) => {
                    return Err(e);
                },
            }
        }
        let decoded = clean_response(&self.response_buffer);
        proof {
            lemma_clean_wf(self.response_buffer@);
            if valid_utf8(clean_spec(self.response_buffer@)) {
                decode_utf8_encode_utf8(clean_spec(self.response_buffer@));
            }
        }
        decoded
    }

    /// Writes a command with a newline terminator; when a response is
    /// expected, drains exactly one framed response and discards it, so the
    /// next command cannot cross it on the half-duplex line.
    pub fn command_new_line(&mut self, command: &str, wait_for_response: bool) -> (r: Result<
        (),
        FocusError,
    >)
        ensures
            sent_at_most(*old(self), *final(self), line_cmd(command@)),
            r is Ok ==> sent_exactly(*old(self), *final(self), line_cmd(command@)),
            r matches Err(e) ==> is_transport_error(e),
    {
        let mut bytes = command.as_bytes_vec();
        bytes.push(10);
        proof {
            assert(bytes@ =~= line_cmd(command@));
        }
        match self.write_bytes(bytes.as_slice()) {
            Ok(()) => {},
            Err(e) => {
                return Err(e);
            },
        }
        if wait_for_response {
            match self.read_string() {
                Ok(_) => {},
                Err(e) => {
                    return Err(e);
                },
            }
        }
        Ok(())
    }

    /// Writes a streaming command with a single-space terminator; no
    /// response is expected.
    pub fn command_whitespace(&mut self, command: &str) -> (r: Result<(), FocusError>)
        ensures
            sent_at_most(*old(self), *final(self), space_cmd(command@)),
            r is Ok ==> sent_exactly(*old(self), *final(self), space_cmd(command@)),
            r matches Err(e) ==> is_transport_error(e),
    {
        let mut bytes = command.as_bytes_vec();
        bytes.push(32);
        proof {
            assert(bytes@ =~= space_cmd(command@));
        }
        self.write_bytes(bytes.as_slice())
    }

    /// Writes a command and reads its framed response as a string.
    pub fn command_response_string(&mut self, command: &str) -> (r: Result<String, FocusError>)
        ensures
            sent_at_most(*old(self), *final(self), line_cmd(command@)),
            r matches Ok(s) ==> sent_exactly(*old(self), *final(self), line_cmd(command@))
                && wf_response(s@),
            r matches Err(e) ==> is_transport_error(e),
    {
        match self.command_new_line(command, false) {
            Ok(()) => {},
            Err(e) => {
                return Err(e);
            },
        }
        self.read_string()
    }

    /// Writes a command and decodes its response as one base-10 number.
    pub fn command_response_numerical<N: WireNumber>(&mut self, command: &str) -> (r: Result<
        N,
        FocusError,
    >)
        ensures
            sent_at_most(*old(self), *final(self), line_cmd(command@)),
            r matches Ok(x) ==> sent_exactly(*old(self), *final(self), line_cmd(command@)) && (
            exists|s: Seq<char>|
                wf_response(s) && parse_token(s) == Some(x.as_natural())),
            r matches Err(e) ==> is_transport_error(e) || (e matches FocusError::ParseNumericalError {
                string,
            } && wf_response(string@) && (match parse_token(string@) {
                Some(v) => v > N::max_natural(),
                None => true,
            })),
    {
        let response = match self.command_response_string(command) {
            Ok(s) => s,
            Err(e) => {
                return Err(e);
            },
        };
        match parse_wire_token(response.as_str(), N::max_wire()) {
            Some(x) => {
                let v = N::from_wire(x);
                proof {
                    assert(wf_response(response@) && parse_token(response@) == Some(
                        v.as_natural(),
                    ));
                }
                Ok(v)
            },
            None => Err(FocusError::ParseNumericalError { string: response }),
        }
    }

    /// Writes a command and decodes its response as a boolean literal.
    pub fn command_response_bool(&mut self, command: &str) -> (r: Result<bool, FocusError>)
        ensures
            sent_at_most(*old(self), *final(self), line_cmd(command@)),
            r matches Ok(b) ==> sent_exactly(*old(self), *final(self), line_cmd(command@)) && (
            exists|s: Seq<char>|
                wf_response(s) && s.len() > 0 && bool_of_response(s) == Some(b)),
            r matches Err(e) ==> is_transport_error(e) || e == FocusError::EmptyResponseError || (
            e matches FocusError::ParseBoolError { string } && wf_response(string@)
                && string@.len() > 0 && bool_of_response(string@) is None),
    {
        let response = match self.command_response_string(command) {
            Ok(s) => s,
            Err(e) => {
                return Err(e);
            },
        };
        let r = decode_bool_response(response.as_str());
        proof {
            match &r {
                Ok(b) => {
                    assert(wf_response(response@) && response@.len() > 0 && bool_of_response(
                        response@,
                    ) == Some(*b));
                },
                Err(_) => {},
            }
        }
        r
    }

    /// Writes a command and splits its response into lines, stripping
    /// carriage returns.
    pub fn command_response_vec_string(&mut self, command: &str) -> (r: Result<
        Vec<String>,
        FocusError,
    >)
        ensures
            sent_at_most(*old(self), *final(self), line_cmd(command@)),
            r matches Ok(v) ==> sent_exactly(*old(self), *final(self), line_cmd(command@)) && (
            exists|s: Seq<char>|
                wf_response(s) && v@.map_values(|l: String| l@) == lines_of(s)),
            r matches Err(e) ==> is_transport_error(e),
    {
        let response = match self.command_response_string(command) {
            Ok(s) => s,
            Err(e) => {
                return Err(e);
            },
        };
        let v = decode_lines(response.as_str());
        proof {
            assert(wf_response(response@) && v@.map_values(|l: String| l@) == lines_of(response@));
        }
        Ok(v)
    }
}

} // verus!
