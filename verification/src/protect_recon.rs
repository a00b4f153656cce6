//! The capture tool: its command line, the blocks that it writes for what it hears, and the few
//! frames that it answers.

use crate::text::{
    decimal, hex2_upper, push_decimal, push_hex2_upper, str_eq,
};
use crate::ws::{frame_bytes, write_frame, Frame, OPCODE_CLOSE, OPCODE_PING, OPCODE_PONG};
use vstd::prelude::*;

verus! {

/// Port of the control connection.
pub const PROTECT_AVCLIENT_PORT: u16 = 7442;

/// Port of the stream connection.
pub const PROTECT_UPFLV_PORT: u16 = 7550;

/// What the command line asks for.
#[derive(Debug, PartialEq, Eq)]
pub struct Config {
    /// The certificate file; the one beside the program where none is named.
    pub cert_path: Option<String>,
    pub password: String,
    /// Whether to capture on the stream port as well.
    pub enable_7550: bool,
}

/// Why the tool does not run.
#[derive(Debug, PartialEq, Eq)]
pub enum ArgStop {
    /// The usage was asked for.
    Help,
    CertWithoutPath,
    PasswordWithoutValue,
    Unknown(String),
}

/// What a configuration stands for.
#[verifier::ext_equal]
pub struct ConfigView {
    pub cert_path: Option<Seq<char>>,
    pub password: Seq<char>,
    pub enable_7550: bool,
}

/// What a reason to stop stands for.
#[verifier::ext_equal]
pub enum StopView {
    Help,
    CertWithoutPath,
    PasswordWithoutValue,
    Unknown(Seq<char>),
}

impl View for Config {
    type V = ConfigView;

    open spec fn view(&self) -> ConfigView {
        ConfigView {
            cert_path: match self.cert_path {
                Some(p) => Some(p@),
                None => None,
            },
            password: self.password@,
            enable_7550: self.enable_7550,
        }
    }
}

impl View for ArgStop {
    type V = StopView;

    open spec fn view(&self) -> StopView {
        match self {
            ArgStop::Help => StopView::Help,
            ArgStop::CertWithoutPath => StopView::CertWithoutPath,
            ArgStop::PasswordWithoutValue => StopView::PasswordWithoutValue,
            ArgStop::Unknown(a) => StopView::Unknown(a@),
        }
    }
}

/// What the arguments from the `i`-th on make of a configuration. The first one that is wrong, or
/// asks for the usage, ends the reading.
pub open spec fn configured(args: Seq<String>, i: int, c: ConfigView) -> Result<ConfigView, StopView>
    decreases args.len() - i,
{
    if i < 0 || i >= args.len() {
        Ok(c)
    } else if args[i]@ == "--help"@ || args[i]@ == "-h"@ {
        Err(StopView::Help)
    } else if args[i]@ == "--cert"@ {
        if i + 1 < args.len() {
            configured(args, i + 2, ConfigView { cert_path: Some(args[i + 1]@), ..c })
        } else {
            Err(StopView::CertWithoutPath)
        }
    } else if args[i]@ == "--password"@ {
        if i + 1 < args.len() {
            configured(args, i + 2, ConfigView { password: args[i + 1]@, ..c })
        } else {
            Err(StopView::PasswordWithoutValue)
        }
    } else if args[i]@ == "--enable-7550"@ {
        configured(args, i + 1, ConfigView { enable_7550: true, ..c })
    } else {
        Err(StopView::Unknown(args[i]@))
    }
}

/// A configuration without arguments.
pub open spec fn default_config() -> ConfigView {
    ConfigView { cert_path: None, password: Seq::empty(), enable_7550: false }
}

/// Reads the command line, without the program's name.
pub fn parse_args(args: &Vec<String>) -> (r: Result<Config, ArgStop>)
    ensures
        match configured(args@, 0, default_config()) {
            Ok(c) => r matches Ok(config) && config@ == c,
            Err(e) => r matches Err(stop) && stop@ == e,
        },
{
    let mut config = Config { cert_path: None, password: String::new(), enable_7550: false };
    assert(config@ =~= default_config());
    let mut i: usize = 0;
    let total: usize = args.len();
    while i < total
        invariant
            i <= total == args@.len(),
            configured(args@, 0, default_config()) == configured(args@, i as int, config@),
        decreases total - i,
    {
        let arg = args[i].as_str();
        if str_eq(arg, "--help") || str_eq(arg, "-h") {
            return Err(ArgStop::Help);
        } else if str_eq(arg, "--cert") {
            if total - i < 2 {
                return Err(ArgStop::CertWithoutPath);
            }
            let ghost before = config@;
            config.cert_path = Some(args[i + 1].as_str().to_owned());
            assert(config@ =~= ConfigView { cert_path: Some(args@[i + 1]@), ..before });
            i += 2;
        } else if str_eq(arg, "--password") {
            if total - i < 2 {
                return Err(ArgStop::PasswordWithoutValue);
            }
            let ghost before = config@;
            config.password = args[i + 1].as_str().to_owned();
            assert(config@ =~= ConfigView { password: args@[i + 1]@, ..before });
            i += 2;
        } else if str_eq(arg, "--enable-7550") {
            let ghost before = config@;
            config.enable_7550 = true;
            assert(config@ =~= ConfigView { enable_7550: true, ..before });
            i += 1;
        } else {
            return Err(ArgStop::Unknown(arg.to_owned()));
        }
    }
    Ok(config)
}

impl ArgStop {
    /// The exit code of the process.
    pub fn exit_code(&self) -> (r: i32)
        ensures
            r == (if self@ is Help {
                0i32
            } else {
                1
            }),
    {
        match self {
            ArgStop::Help => 0,
            _ => 1,
        }
    }
}

/// A byte as a character, where it is a printable one.
pub open spec fn printable(b: u8) -> char {
    if 0x20 <= b < 0x7F {
        b as char
    } else {
        '.'
    }
}

/// Two hexadecimal digits and a blank for each byte.
pub open spec fn hex_part(bytes: Seq<u8>) -> Seq<char>
    decreases bytes.len(),
{
    if bytes.len() == 0 {
        Seq::empty()
    } else {
        hex_part(bytes.drop_last()) + hex2_upper(bytes.last()) + seq![' ']
    }
}

pub open spec fn ascii_part(bytes: Seq<u8>) -> Seq<char> {
    Seq::new(bytes.len(), |i: int| printable(bytes[i]))
}

/// `n` times three blanks.
pub open spec fn blank_part(n: int) -> Seq<char> {
    Seq::new((3 * n) as nat, |i: int| ' ')
}

/// A row of at most 16 bytes.
pub open spec fn dump_row(bytes: Seq<u8>) -> Seq<char> {
    "  "@ + hex_part(bytes) + blank_part(16 - bytes.len()) + " |"@ + ascii_part(bytes) + "|\n"@
}

/// Rows of 16 bytes.
pub open spec fn dump_rows(bytes: Seq<u8>) -> Seq<char>
    decreases bytes.len(),
{
    if bytes.len() == 0 {
        Seq::empty()
    } else if bytes.len() <= 16 {
        dump_row(bytes)
    } else {
        dump_row(bytes.take(16)) + dump_rows(bytes.skip(16))
    }
}

/// Appends the row for the bytes from `from` to `to`.
fn push_row(out: &mut String, bytes: &[u8], from: usize, to: usize)
    requires
        from <= to <= bytes@.len(),
        to - from <= 16,
    ensures
        final(out)@ == old(out)@ + dump_row(bytes@.subrange(from as int, to as int)),
{
    let ghost row = bytes@.subrange(from as int, to as int);
    out.append("  ");
    let ghost start = out@;
    let mut i: usize = from;
    assert(row.take(0) =~= Seq::empty());
    assert(out@ =~= start + hex_part(row.take(0)));
    while i < to
        invariant
            from <= i <= to <= bytes@.len(),
            row == bytes@.subrange(from as int, to as int),
            out@ == start + hex_part(row.take(i - from)),
        decreases to - i,
    {
        let ghost before = out@;
        push_hex2_upper(out, bytes[i]);
        out.push(' ');
        proof {
            let head = row.take(i + 1 - from);
            assert(head.drop_last() =~= row.take(i - from));
            assert(head.last() == bytes@[i as int]);
            assert(out@ =~= start + hex_part(head));
        }
        i += 1;
    }
    assert(row.take(to - from) =~= row);
    let ghost filled = out@;
    let fill: usize = 16 - (to - from);
    let mut k: usize = 0;
    assert(out@ =~= filled + blank_part(0));
    while k < fill
        invariant
            k <= fill,
            out@ == filled + blank_part(k as int),
        decreases fill - k,
    {
        out.push(' ');
        out.push(' ');
        out.push(' ');
        k += 1;
        assert(out@ =~= filled + blank_part(k as int));
    }
    out.append(" |");
    let ghost opened = out@;
    let mut j: usize = from;
    assert(out@ =~= opened + ascii_part(row.take(0)));
    while j < to
        invariant
            from <= j <= to <= bytes@.len(),
            row == bytes@.subrange(from as int, to as int),
            out@ == opened + ascii_part(row.take(j - from)),
        decreases to - j,
    {
        let b: u8 = bytes[j];
        out.push(
            if 0x20 <= b && b < 0x7F {
                b as char
            } else {
                '.'
            },
        );
        assert(out@ =~= opened + ascii_part(row.take(j + 1 - from)));
        j += 1;
    }
    out.append("|\n");
    assert(out@ =~= old(out)@ + dump_row(row));
}

/// Appends rows of 16 bytes.
fn push_rows(out: &mut String, bytes: &[u8])
    ensures
        final(out)@ == old(out)@ + dump_rows(bytes@),
{
    let total: usize = bytes.len();
    let mut i: usize = 0;
    let ghost goal = out@ + dump_rows(bytes@);
    assert(bytes@.skip(0) =~= bytes@);
    while i < total
        invariant
            i <= total == bytes@.len(),
            goal == out@ + dump_rows(bytes@.skip(i as int)),
        decreases total - i,
    {
        let to: usize = if total - i < 16 {
            total
        } else {
            i + 16
        };
        let ghost rest = bytes@.skip(i as int);
        let ghost before = out@;
        push_row(out, bytes, i, to);
        proof {
            if rest.len() <= 16 {
                assert(bytes@.subrange(i as int, to as int) =~= rest);
                assert(bytes@.skip(to as int) =~= Seq::empty());
                assert(out@ + dump_rows(bytes@.skip(to as int)) =~= before + dump_rows(rest));
            } else {
                assert(bytes@.subrange(i as int, to as int) =~= rest.take(16));
                assert(bytes@.skip(to as int) =~= rest.skip(16));
                assert(out@ + dump_rows(rest.skip(16)) =~= before + dump_rows(rest));
            }
        }
        i = to;
    }
    assert(bytes@.skip(total as int) =~= Seq::empty());
    assert(out@ =~= goal);
}

/// The block for a chunk of bytes: port, number and length, then the rows.
pub open spec fn raw_block(port: u16, index: int, bytes: Seq<u8>) -> Seq<char> {
    "["@ + decimal(port as nat) + "] raw chunk "@ + decimal(index as nat) + ": "@ + decimal(bytes.len())
        + " byte(s)\n"@ + dump_rows(bytes)
}

/// The block for a chunk of bytes.
pub fn format_raw_block(port: u16, index: usize, bytes: &[u8]) -> (r: String)
    ensures
        r@ == raw_block(port, index as int, bytes@),
{
    let mut out = "[".to_owned();
    push_decimal(&mut out, port as u64);
    out.append("] raw chunk ");
    push_decimal(&mut out, index as u64);
    out.append(": ");
    push_decimal(&mut out, bytes.len() as u64);
    out.append(" byte(s)\n");
    push_rows(&mut out, bytes);
    out
}

/// The block for a frame: port, number, opcode, final bit and length, then the rows.
pub open spec fn frame_block(port: u16, index: int, fin: bool, opcode: u8, payload: Seq<u8>) -> Seq<char> {
    "["@ + decimal(port as nat) + "] frame "@ + decimal(index as nat) + ": opcode=0x"@ + hex2_upper(opcode)
        + " fin="@ + (if fin {
        "true"@
    } else {
        "false"@
    }) + " len="@ + decimal(payload.len()) + "\n"@ + dump_rows(payload)
}

/// The block for a frame.
pub fn format_frame_block(port: u16, index: usize, frame: &Frame) -> (r: String)
    ensures
        r@ == frame_block(port, index as int, frame.fin, frame.opcode, frame.payload@),
{
    let mut out = "[".to_owned();
    push_decimal(&mut out, port as u64);
    out.append("] frame ");
    push_decimal(&mut out, index as u64);
    out.append(": opcode=0x");
    push_hex2_upper(&mut out, frame.opcode);
    out.append(" fin=");
    if frame.fin {
        out.append("true");
    } else {
        out.append("false");
    }
    out.append(" len=");
    push_decimal(&mut out, frame.payload.len() as u64);
    out.append("\n");
    push_rows(&mut out, frame.payload.as_slice());
    out
}

/// What the capture does after a frame.
#[derive(Debug, PartialEq, Eq)]
pub struct CaptureStep {
    /// Bytes to send.
    pub reply: Option<Vec<u8>>,
    /// Whether the capture is over.
    pub done: bool,
}

/// Answers a ping with a pong and a close with a close, and lets everything else be.
pub fn capture_step(frame: &Frame) -> (r: CaptureStep)
    ensures
        frame.opcode == OPCODE_PING ==> !r.done && (r.reply matches Some(b) && b@ == frame_bytes(
            false,
            OPCODE_PONG,
            frame.payload@,
        )),
        frame.opcode == OPCODE_CLOSE ==> r.done && (r.reply matches Some(b) && b@ == frame_bytes(
            false,
            OPCODE_CLOSE,
            frame.payload@,
        )),
        frame.opcode != OPCODE_PING && frame.opcode != OPCODE_CLOSE ==> !r.done && r.reply is None,
{
    if frame.opcode == OPCODE_PING {
        CaptureStep { reply: Some(write_frame(OPCODE_PONG, false, frame.payload.as_slice())), done: false }
    } else if frame.opcode == OPCODE_CLOSE {
        CaptureStep { reply: Some(write_frame(OPCODE_CLOSE, false, frame.payload.as_slice())), done: true }
    } else {
        CaptureStep { reply: None, done: false }
    }
}

} // verus!
