//! Laws of the capture tool: what each argument sets, how a byte is found again in a dump, and which
//! frames are answered.

use crate::protect_recon::{
    capture_step, configured, default_config, dump_row, dump_rows, format_frame_block, format_raw_block, hex_part,
    parse_args, ArgStop, CaptureStep, Config, ConfigView, StopView,
};
use crate::text::{decimal, hex2_upper};
use crate::tls_laws::digit_of;
use crate::ws::{frame_at, law_reading_undoes_writing, Frame, FrameStep, FrameView};
use vstd::prelude::*;

verus! {

proof fn lemma_option_names()
    ensures
        "--cert"@ != "--help"@,
        "--cert"@ != "-h"@,
        "--password"@ != "--help"@,
        "--password"@ != "-h"@,
        "--password"@ != "--cert"@,
        "--enable-7550"@ != "--help"@,
        "--enable-7550"@ != "-h"@,
        "--enable-7550"@ != "--cert"@,
        "--enable-7550"@ != "--password"@,
{
    reveal_strlit("--help");
    reveal_strlit("-h");
    reveal_strlit("--cert");
    reveal_strlit("--password");
    reveal_strlit("--enable-7550");
    assert("--cert"@[2] != "--help"@[2]);
    assert("-h"@.len() == 2);
    assert("--help"@.len() == 6);
    assert("--cert"@.len() == 6);
    assert("--password"@.len() == 10);
    assert("--enable-7550"@.len() == 13);
}

/// Arguments that are in order by themselves are read the same in front of others.
proof fn lemma_read_on(args: Seq<String>, tail: Seq<String>, i: int, c: ConfigView, end: ConfigView)
    requires
        0 <= i <= args.len(),
        configured(args, i, c) == Ok::<ConfigView, StopView>(end),
    ensures
        configured(args + tail, i, c) == configured(args + tail, args.len() as int, end),
    decreases args.len() - i,
{
    if i < args.len() {
        assert((args + tail)[i] == args[i]);
        if args[i]@ == "--cert"@ {
            assert((args + tail)[i + 1] == args[i + 1]);
            lemma_read_on(args, tail, i + 2, ConfigView { cert_path: Some(args[i + 1]@), ..c }, end);
        } else if args[i]@ == "--password"@ {
            assert((args + tail)[i + 1] == args[i + 1]);
            lemma_read_on(args, tail, i + 2, ConfigView { password: args[i + 1]@, ..c }, end);
        } else {
            lemma_read_on(args, tail, i + 1, ConfigView { enable_7550: true, ..c }, end);
        }
    }
}

/// Without arguments nothing is set.
pub proof fn law_nothing_is_set_unasked(args: Vec<String>, r: Result<Config, ArgStop>)
    requires
        args@.len() == 0,
        call_ensures(parse_args, (&args,), r),
    ensures
        r matches Ok(c) && c.cert_path is None && c.password@.len() == 0 && !c.enable_7550,
{
    let c = configured(args@, 0, default_config());
    assert(c == Ok::<ConfigView, StopView>(default_config()));
    assert(r is Ok && r->Ok_0@ == default_config());
}

/// An option behind others sets what it names, whatever they said of it, and nothing else.
pub proof fn law_option_sets_what_it_names(
    args: Vec<String>,
    option: String,
    value: String,
    more: Vec<String>,
    first: Config,
    r: Result<Config, ArgStop>,
)
    requires
        call_ensures(parse_args, (&args,), Ok::<Config, ArgStop>(first)),
        more@ == args@ + seq![option, value],
        option@ == "--cert"@ || option@ == "--password"@,
        call_ensures(parse_args, (&more,), r),
    ensures
        r is Ok,
        r matches Ok(c) ==> c.enable_7550 == first.enable_7550 && (if option@ == "--cert"@ {
            (c.cert_path matches Some(p) && p@ == value@) && c.password@ == first.password@
        } else {
            c.password@ == value@ && c@.cert_path == first@.cert_path
        }),
{
    lemma_option_names();
    let n = args@.len() as int;
    lemma_read_on(args@, seq![option, value], 0, default_config(), first@);
    assert(more@[n] == option);
    assert(more@[n + 1] == value);
    let next = if option@ == "--cert"@ {
        ConfigView { cert_path: Some(value@), ..first@ }
    } else {
        ConfigView { password: value@, ..first@ }
    };
    assert(configured(more@, n + 2, next) == Ok::<ConfigView, StopView>(next));
    assert(configured(more@, n, first@) == configured(more@, n + 2, next));
    assert(r is Ok && r->Ok_0@ == next);
}

/// The switch behind others turns the stream port on, and sets nothing else.
pub proof fn law_switch_turns_the_stream_port_on(
    args: Vec<String>,
    option: String,
    more: Vec<String>,
    first: Config,
    r: Result<Config, ArgStop>,
)
    requires
        call_ensures(parse_args, (&args,), Ok::<Config, ArgStop>(first)),
        more@ == args@ + seq![option],
        option@ == "--enable-7550"@,
        call_ensures(parse_args, (&more,), r),
    ensures
        r matches Ok(c) && c.enable_7550 && c.password@ == first.password@ && c@.cert_path == first@.cert_path,
{
    lemma_option_names();
    let n = args@.len() as int;
    lemma_read_on(args@, seq![option], 0, default_config(), first@);
    assert(more@[n] == option);
    let next = ConfigView { enable_7550: true, ..first@ };
    assert(configured(more@, n + 1, next) == Ok::<ConfigView, StopView>(next));
    assert(configured(more@, n, first@) == configured(more@, n + 1, next));
    assert(r is Ok && r->Ok_0@ == next);
}

/// Behind arguments that are in order, an argument that asks for the usage, lacks its value or is
/// unknown stops the reading, whatever follows the first and the last of these; only the usage is no
/// failure.
pub proof fn law_reading_stops(
    args: Vec<String>,
    option: String,
    rest: Seq<String>,
    more: Vec<String>,
    first: Config,
    r: Result<Config, ArgStop>,
    code: i32,
)
    requires
        call_ensures(parse_args, (&args,), Ok::<Config, ArgStop>(first)),
        more@ == args@ + (seq![option] + rest),
        option@ != "--enable-7550"@,
        (option@ == "--cert"@ || option@ == "--password"@) ==> rest.len() == 0,
        call_ensures(parse_args, (&more,), r),
        call_ensures(ArgStop::exit_code, (&r->Err_0,), code),
    ensures
        r is Err,
        option@ == "--help"@ || option@ == "-h"@ ==> r->Err_0 is Help && code == 0,
        option@ == "--cert"@ ==> r->Err_0 is CertWithoutPath && code == 1,
        option@ == "--password"@ ==> r->Err_0 is PasswordWithoutValue && code == 1,
        option@ != "--help"@ && option@ != "-h"@ && option@ != "--cert"@ && option@ != "--password"@ ==> (
        r->Err_0 matches ArgStop::Unknown(a) && a@ == option@ && code == 1),
{
    lemma_option_names();
    let n = args@.len() as int;
    lemma_read_on(args@, seq![option] + rest, 0, default_config(), first@);
    assert(more@[n] == option);
    assert(configured(more@, 0, default_config()) == configured(more@, n, first@));
}

proof fn lemma_hex_part(bytes: Seq<u8>, j: int)
    requires
        0 <= j < bytes.len(),
    ensures
        hex_part(bytes).len() == 3 * bytes.len(),
        hex_part(bytes)[3 * j] == hex2_upper(bytes[j])[0],
        hex_part(bytes)[3 * j + 1] == hex2_upper(bytes[j])[1],
    decreases bytes.len(),
{
    let head = bytes.drop_last();
    if head.len() > 0 {
        lemma_hex_part(head, if j < head.len() {
            j
        } else {
            0
        });
    } else {
        assert(hex_part(head) =~= Seq::empty());
    }
}

proof fn lemma_row(bytes: Seq<u8>, j: int)
    requires
        0 <= j < bytes.len() <= 16,
    ensures
        dump_row(bytes).len() == 54 + bytes.len(),
        dump_row(bytes)[2 + 3 * j] == hex2_upper(bytes[j])[0],
        dump_row(bytes)[3 + 3 * j] == hex2_upper(bytes[j])[1],
        dump_row(bytes)[52 + j] == (if 0x20 <= bytes[j] < 0x7F {
            bytes[j] as char
        } else {
            '.'
        }),
{
    reveal_strlit("  ");
    reveal_strlit(" |");
    reveal_strlit("|\n");
    lemma_hex_part(bytes, j);
}

/// Every byte is found in a dump at its place: sixteen to a line of seventy characters, first the two
/// hexadecimal digits of each, then each as a character where it is a printable one.
pub proof fn law_dump_shows_every_byte(bytes: Seq<u8>, i: int)
    requires
        0 <= i < bytes.len(),
    ensures
        ({
            let dump = dump_rows(bytes);
            let line = 70 * (i / 16);
            let place = i % 16;
            &&& line + 52 + place < dump.len()
            &&& digit_of(dump[line + 2 + 3 * place]) * 16 + digit_of(dump[line + 3 + 3 * place]) == bytes[i]
            &&& dump[line + 52 + place] == (if 0x20 <= bytes[i] < 0x7F {
                bytes[i] as char
            } else {
                '.'
            })
        }),
    decreases bytes.len(),
{
    lemma_byte_digits(bytes[i]);
    if bytes.len() <= 16 {
        lemma_row(bytes, i);
    } else {
        let row = bytes.take(16);
        let rest = bytes.skip(16);
        lemma_row(row, if i < 16 {
            i
        } else {
            0
        });
        if i >= 16 {
            law_dump_shows_every_byte(rest, i - 16);
            assert(rest[i - 16] == bytes[i]);
            let line = 70 * ((i - 16) / 16);
            let place = (i - 16) % 16;
            assert(70 * (i / 16) == 70 + line);
            assert(place == i % 16);
            let dump = dump_row(row) + dump_rows(rest);
            assert(dump[70 + line + 2 + 3 * place] == dump_rows(rest)[line + 2 + 3 * place]);
            assert(dump[70 + line + 3 + 3 * place] == dump_rows(rest)[line + 3 + 3 * place]);
            assert(dump[70 + line + 52 + place] == dump_rows(rest)[line + 52 + place]);
        }
    }
}

proof fn lemma_byte_digits(b: u8)
    ensures
        digit_of(hex2_upper(b)[0]) * 16 + digit_of(hex2_upper(b)[1]) == b,
{
}

/// A block begins with the port, the number and the length of what was heard, and goes on with its dump.
pub proof fn law_blocks_begin_with_what_was_heard(
    port: u16,
    index: usize,
    bytes: &[u8],
    frame: &Frame,
    raw: String,
    framed: String,
)
    requires
        call_ensures(format_raw_block, (port, index, bytes), raw),
        call_ensures(format_frame_block, (port, index, frame), framed),
    ensures
        raw@ == "["@ + decimal(port as nat) + "] raw chunk "@ + decimal(index as nat) + ": "@ + decimal(bytes@.len())
            + " byte(s)\n"@ + dump_rows(bytes@),
        framed@ == "["@ + decimal(port as nat) + "] frame "@ + decimal(index as nat) + ": opcode=0x"@ + hex2_upper(
            frame.opcode,
        ) + " fin="@ + (if frame.fin {
            "true"@
        } else {
            "false"@
        }) + " len="@ + decimal(frame.payload@.len()) + "\n"@ + dump_rows(frame.payload@),
{
}

/// A ping is answered with a frame that is read as a pong with the same payload, a close with one that is
/// read as a close, after which the capture is over; nothing else is answered.
pub proof fn law_only_ping_and_close_are_answered(frame: &Frame, rest: Seq<u8>, r: CaptureStep)
    requires
        frame.payload@.len() <= 16_777_216,
        call_ensures(capture_step, (frame,), r),
    ensures
        r.done <==> frame.opcode == 8,
        r.reply is Some <==> frame.opcode == 8 || frame.opcode == 9,
        r.reply matches Some(b) ==> (frame_at(b@ + rest) matches FrameStep::Whole(f, n) && n == b@.len() && f
            == (FrameView {
            fin: false,
            opcode: if frame.opcode == 9 {
                10
            } else {
                8
            },
            payload: frame.payload@,
        })),
{
    law_reading_undoes_writing(false, 10, frame.payload@, rest);
    law_reading_undoes_writing(false, 8, frame.payload@, rest);
}

} // verus!
