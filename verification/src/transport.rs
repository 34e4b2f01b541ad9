//! The byte-level transport a session runs on.
//!
//! A session exclusively owns its transport, so the protocol's one-command-
//! in-flight discipline holds by construction. The engine is written
//! against the [`Transport`] capability alone: the serial implementation
//! carries a real port with the protocol's fixed framing parameters, and
//! the scripted in-memory implementation exercises the engine without
//! hardware.

use vstd::prelude::*;

use vstd::slice::slice_to_vec;

use crate::error::FocusError;

verus! {

/// A byte pipe with a ledger: the specification tracks every write the
/// transport has performed, so a caller's contract can say exactly which
/// commands went on the wire.
pub trait Transport: Sized {
    /// The bytes of every write performed so far, in order.
    spec fn writes(&self) -> Seq<Seq<u8>>;

    /// Writes the buffer fully. The ledger records a command only when the
    /// whole write succeeded: a failed write leaves the ledger unchanged
    /// and surfaces as the serial write error, nothing else.
    fn write_all_bytes(&mut self, bytes: &[u8]) -> (r: Result<(), FocusError>)
        ensures
            r is Ok ==> final(self).writes() == old(self).writes().push(bytes@),
            r matches Err(e) ==> final(self).writes() == old(self).writes()
                && e is SerialPortWriteError,
    ;

    /// Flushes buffered output; a failure is the serial flush error.
    fn flush_all(&mut self) -> (r: Result<(), FocusError>)
        ensures
            final(self).writes() == old(self).writes(),
            r matches Err(e) ==> e is SerialPortFlushError,
    ;

    /// One blocking read. An empty chunk means "nothing yet, try again";
    /// an error is fatal to the in-flight operation and is the serial read
    /// error.
    fn read_chunk(&mut self) -> (r: Result<Vec<u8>, FocusError>)
        ensures
            final(self).writes() == old(self).writes(),
            r matches Err(e) ==> e is SerialPortReadError,
    ;
}

/// Declares serialport's `TTYPort`, the platform's native serial handle,
/// so a session can own one; the verifier treats its values as opaque.
#[verifier::external_type_specification]
#[verifier::external_body]
pub struct ExTTYPort(serialport::TTYPort);

/// Relies on serialport's builder and `TTYPort::open`: opens the named
/// port at 115200 baud, 8 data bits, no parity, one stop bit, no flow
/// control, with a bounded read timeout; then asserts DTR through
/// `SerialPort::write_data_terminal_ready` and waives POSIX exclusivity
/// through `TTYPort::set_exclusive(false)`.
#[verifier::external_body]
fn open_serial_port(port: &str) -> (r: Result<serialport::TTYPort, FocusError>) {
    let builder = serialport::new(port, 115_200).data_bits(serialport::DataBits::Eight)
        .flow_control(serialport::FlowControl::None)
        .parity(serialport::Parity::None)
        .stop_bits(serialport::StopBits::One)
        .timeout(std::time::Duration::from_secs(5));
    let mut p = builder.open_native().map_err(
        |e| FocusError::SerialPortOpenError(e.to_string()),
    )?;
    serialport::SerialPort::write_data_terminal_ready(&mut p, true).map_err(
        |e| FocusError::SerialPortConfigurationError(e.to_string()),
    )?;
    p.set_exclusive(false).map_err(
        |e| FocusError::SerialPortConfigurationError(e.to_string()),
    )?;
    Ok(p)
}

/// Exclusive owner of one open serial connection.
pub struct SerialTransport {
    port: serialport::TTYPort,
    log: Ghost<Seq<Seq<u8>>>,
}

impl SerialTransport {
    /// Opens the named port with the protocol's fixed framing parameters:
    /// 115200 baud, 8-N-1, no flow control, DTR asserted, non-exclusive
    /// access where the operating system supports it.
    pub fn open(port_name: &str) -> (r: Result<SerialTransport, FocusError>)
        ensures
            r matches Ok(t) ==> t.writes() == Seq::<Seq<u8>>::empty(),
    {
        match open_serial_port(port_name) {
            Ok(p) => Ok(SerialTransport { port: p, log: Ghost(Seq::empty()) }),
            Err(e) => Err(e),
        }
    }
}

impl Transport for SerialTransport {
    closed spec fn writes(&self) -> Seq<Seq<u8>> {
        self.log@
    }

    fn write_all_bytes(&mut self, bytes: &[u8]) -> (r: Result<(), FocusError>) {
        match tty_write_all(&mut self.port, bytes) {
            Ok(()) => {
                self.log = Ghost(self.log@.push(bytes@));
                Ok(())
            },
            Err(message) => Err(FocusError::SerialPortWriteError(message)),
        }
    }

    fn flush_all(&mut self) -> (r: Result<(), FocusError>) {
        match tty_flush(&mut self.port) {
            Ok(()) => Ok(()),
            Err(message) => Err(FocusError::SerialPortFlushError(message)),
        }
    }

    fn read_chunk(&mut self) -> (r: Result<Vec<u8>, FocusError>) {
        match tty_read_chunk(&mut self.port) {
            Ok(chunk) => Ok(chunk),
            Err(message) => Err(FocusError::SerialPortReadError(message)),
        }
    }
}

/// Relies on std's `io::Write::write_all` on the serial handle: on success
/// the whole buffer was written, in order, as one command; a failure is
/// handed back as the driver's message text.
#[verifier::external_body]
fn tty_write_all(port: &mut serialport::TTYPort, bytes: &[u8]) -> (r: Result<(), String>) {
    std::io::Write::write_all(port, bytes).map_err(|e| e.to_string())
}

/// Relies on std's `io::Write::flush` on the serial handle: flushing sends
/// nothing new; a failure is handed back as the driver's message text.
#[verifier::external_body]
fn tty_flush(port: &mut serialport::TTYPort) -> (r: Result<(), String>) {
    std::io::Write::flush(port).map_err(|e| e.to_string())
}

/// Relies on std's `io::Read::read` on the serial handle: a successful read
/// fills a prefix of the buffer, a signal interruption is handed back as an
/// empty chunk to be retried, any other failure (a timeout included) is
/// fatal and handed back as the driver's message text.
#[verifier::external_body]
fn tty_read_chunk(port: &mut serialport::TTYPort) -> (r: Result<Vec<u8>, String>) {
    let mut buf = vec![0u8; 1024];
    match std::io::Read::read(port, &mut buf) {
        Ok(n) => {
            buf.truncate(n);
            Ok(buf)
        },
        Err(e) if e.kind() == std::io::ErrorKind::Interrupted => Ok(Vec::new()),
        Err(e) => Err(e.to_string()),
    }
}

/// One scripted step of a mock transport's read side.
#[derive(Clone)]
pub enum MockStep {
    /// The next read hands back these bytes.
    Chunk(Vec<u8>),
    /// The next read fails fatally.
    Fail,
}

/// An in-memory transport: reads follow a script, consumed front to back
/// and failing once it runs out; writes are recorded.
pub struct MockTransport {
    steps: Vec<MockStep>,
    cursor: usize,
    recorded: Vec<Vec<u8>>,
}

impl MockTransport {
    /// A transport whose reads will follow the given script.
    pub fn new(steps: Vec<MockStep>) -> (t: MockTransport)
        ensures
            t.writes() == Seq::<Seq<u8>>::empty(),
    {
        let t = MockTransport { steps, cursor: 0, recorded: Vec::new() };
        proof {
            assert(t.writes() =~= Seq::<Seq<u8>>::empty());
        }
        t
    }

    /// The writes recorded so far, in order.
    pub fn recorded_writes(&self) -> (r: &Vec<Vec<u8>>)
        ensures
            r@.map_values(|w: Vec<u8>| w@) == self.writes(),
    {
        &self.recorded
    }
}

impl Transport for MockTransport {
    closed spec fn writes(&self) -> Seq<Seq<u8>> {
        self.recorded@.map_values(|w: Vec<u8>| w@)
    }

    fn write_all_bytes(&mut self, bytes: &[u8]) -> (r: Result<(), FocusError>) {
        let ghost pre = self.recorded@;
        let w = slice_to_vec(bytes);
        self.recorded.push(w);
        proof {
            let f = |w: Vec<u8>| w@;
            assert(self.recorded@.map_values(f) =~= pre.map_values(f).push(bytes@));
        }
        Ok(())
    }

    fn flush_all(&mut self) -> (r: Result<(), FocusError>) {
        Ok(())
    }

    fn read_chunk(&mut self) -> (r: Result<Vec<u8>, FocusError>) {
        if self.cursor < self.steps.len() {
            let i = self.cursor;
            self.cursor = i + 1;
            let step = self.steps[i].clone();
            match step {
                MockStep::Chunk(v) => Ok(v),
                MockStep::Fail => Err(
                    FocusError::SerialPortReadError(String::from_str("scripted read failure")),
                ),
            }
        } else {
            Err(FocusError::SerialPortReadError(String::from_str("read script exhausted")))
        }
    }
}

} // verus!
