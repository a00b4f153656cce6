//! Laws of the configuration file: each setting goes by its own name.

use crate::config::{
    applied, before_comment, config_of, configured, default_config, section_name, ConfigView, Pair, Reading,
};
use crate::http_laws::{lemma_case, same_but_for_case};
use crate::text::{decimal, pieces, position, trim_end, trim_start, trimmed, white_space};
use crate::text_laws::{lacks, lemma_first_piece, lemma_numeral, lemma_one_piece, lemma_trimmed_already};
use vstd::prelude::*;

verus! {

/// The names of the settings all differ.
proof fn lemma_keys()
    ensures
        "listen_port"@.len() == 11,
        "rtsp_port"@.len() == 9 && "rtsp_port"@[0] == 'r',
        "onvif_port"@.len() == 10,
        "onvif_discovery"@.len() == 15 && "onvif_discovery"@[0] == 'o',
        "server_ip"@.len() == 9 && "server_ip"@[0] == 's',
        "cert_path"@.len() == 9 && "cert_path"@[0] == 'c',
        "cert_password"@.len() == 13,
        "controller_name"@.len() == 15 && "controller_name"@[0] == 'c' && "controller_name"@[11] == 'n',
        "controller_uuid"@.len() == 15 && "controller_uuid"@[0] == 'c' && "controller_uuid"@[11] == 'u',
        "controller_version"@.len() == 18,
{
    reveal_strlit("listen_port");
    reveal_strlit("rtsp_port");
    reveal_strlit("onvif_port");
    reveal_strlit("onvif_discovery");
    reveal_strlit("server_ip");
    reveal_strlit("cert_path");
    reveal_strlit("cert_password");
    reveal_strlit("controller_name");
    reveal_strlit("controller_uuid");
    reveal_strlit("controller_version");
}

/// An entry sets the setting that it names and no other. A port is a numeral up to 65535; whether the
/// device can be discovered is `true` or `false`, whatever the case of the letters; every other
/// setting is the text itself.
pub proof fn law_entry_sets_its_setting(c: ConfigView, entries: Seq<Pair>, val: Seq<char>, n: u16)
    ensures
        ({
            let before = configured(c, entries);
            let number = decimal(n as nat);
            let yes = same_but_for_case(val, "true"@);
            let no = same_but_for_case(val, "false"@);
            &&& configured(c, entries.push(("listen_port"@, number))) == (ConfigView { listen_port: n, ..before })
            &&& configured(c, entries.push(("rtsp_port"@, number))) == (ConfigView { rtsp_port: n, ..before })
            &&& configured(c, entries.push(("onvif_port"@, number))) == (ConfigView { onvif_port: n, ..before })
            &&& yes ==> configured(c, entries.push(("onvif_discovery"@, val))) == (ConfigView {
                onvif_discovery: true,
                ..before
            })
            &&& no ==> configured(c, entries.push(("onvif_discovery"@, val))) == (ConfigView {
                onvif_discovery: false,
                ..before
            })
            &&& !yes && !no ==> configured(c, entries.push(("onvif_discovery"@, val))) == before
            &&& configured(c, entries.push(("server_ip"@, val))) == (ConfigView { server_ip: Some(val), ..before })
            &&& configured(c, entries.push(("cert_path"@, val))) == (ConfigView { cert_path: Some(val), ..before })
            &&& configured(c, entries.push(("cert_password"@, val))) == (ConfigView {
                cert_password: Some(val),
                ..before
            })
            &&& configured(c, entries.push(("controller_name"@, val))) == (ConfigView { controller_name: val, ..before })
            &&& configured(c, entries.push(("controller_uuid"@, val))) == (ConfigView { controller_uuid: val, ..before })
            &&& configured(c, entries.push(("controller_version"@, val))) == (ConfigView {
                controller_version: val,
                ..before
            })
        }),
{
    let number = decimal(n as nat);
    lemma_keys();
    lemma_numeral(n as nat, 65535, ' ');
    lemma_case(val, "true"@);
    lemma_case(val, "false"@);
    reveal_strlit("true");
    reveal_strlit("false");
    assert("true"@.len() == 4 && "false"@.len() == 5);
    lemma_pushed(c, entries, ("listen_port"@, number));
    lemma_pushed(c, entries, ("rtsp_port"@, number));
    lemma_pushed(c, entries, ("onvif_port"@, number));
    lemma_pushed(c, entries, ("onvif_discovery"@, val));
    lemma_pushed(c, entries, ("server_ip"@, val));
    lemma_pushed(c, entries, ("cert_path"@, val));
    lemma_pushed(c, entries, ("cert_password"@, val));
    lemma_pushed(c, entries, ("controller_name"@, val));
    lemma_pushed(c, entries, ("controller_uuid"@, val));
    lemma_pushed(c, entries, ("controller_version"@, val));
}

proof fn lemma_pushed(c: ConfigView, entries: Seq<Pair>, pair: Pair)
    ensures
        configured(c, entries.push(pair)) == applied(configured(c, entries), pair.0, pair.1),
{
    assert(entries.push(pair).drop_last() =~= entries);
}

/// Whether a name or a value can stand in an entry: it has no mark of a comment or an entry in it, and
/// no white space around it.
pub open spec fn is_plain_text(t: Seq<char>) -> bool {
    &&& t.len() > 0
    &&& lacks(t, '#')
    &&& !white_space(t[0])
    &&& !white_space(t.last())
}

/// Nothing but white space.
pub open spec fn is_blank(t: Seq<char>) -> bool {
    forall|i: int| 0 <= i < t.len() ==> white_space(#[trigger] t[i])
}

proof fn lemma_trim(a: Seq<char>, t: Seq<char>, b: Seq<char>)
    requires
        is_blank(a),
        is_blank(b),
        t.len() > 0,
        !white_space(t[0]),
        !white_space(t.last()),
    ensures
        trimmed(a + t + b) == t,
{
    lemma_trim_start(a, t + b);
    assert(a + t + b =~= a + (t + b));
    assert((t + b)[0] == t[0]);
    lemma_trim_end(t, b);
}

proof fn lemma_trim_start(a: Seq<char>, t: Seq<char>)
    requires
        is_blank(a),
        t.len() > 0,
        !white_space(t[0]),
    ensures
        trim_start(a + t) == t,
    decreases a.len(),
{
    if a.len() == 0 {
        assert(a + t =~= t);
    } else {
        assert((a + t)[0] == a[0]);
        assert((a + t).skip(1) =~= a.skip(1) + t);
        assert(is_blank(a.skip(1))) by {
            assert forall|i: int| 0 <= i < a.skip(1).len() implies white_space(#[trigger] a.skip(1)[i]) by {
                assert(a.skip(1)[i] == a[i + 1]);
            }
        }
        lemma_trim_start(a.skip(1), t);
    }
}

proof fn lemma_trim_end(t: Seq<char>, b: Seq<char>)
    requires
        is_blank(b),
        t.len() > 0,
        !white_space(t.last()),
    ensures
        trim_end(t + b) == t,
    decreases b.len(),
{
    if b.len() == 0 {
        assert(t + b =~= t);
    } else {
        assert((t + b).last() == b[b.len() - 1]);
        assert((t + b).drop_last() =~= t + b.drop_last());
        assert(is_blank(b.drop_last())) by {
            assert forall|i: int| 0 <= i < b.drop_last().len() implies white_space(#[trigger] b.drop_last()[i]) by {
                assert(b.drop_last()[i] == b[i]);
            }
        }
        lemma_trim_end(t, b.drop_last());
    }
}

proof fn lemma_position(a: Seq<char>, c: char, b: Seq<char>)
    requires
        lacks(a, c),
    ensures
        position(a + seq![c] + b, c) == Some(a.len() as int),
        position(a, c) is None,
    decreases a.len(),
{
    let s = a + seq![c] + b;
    if a.len() == 0 {
        assert(s[0] == c);
    } else {
        assert(s[0] == a[0]);
        assert(a[0] != c);
        assert(s.skip(1) =~= a.skip(1) + seq![c] + b);
        lemma_position(a.skip(1), c, b);
    }
}

/// A line of the section `[server]` with a name, `=` and a value is an entry, whatever white space and
/// whatever comment there is around them. Outside the section it is none.
pub proof fn law_line_is_an_entry(
    r: Reading,
    key: Seq<char>,
    val: Seq<char>,
    left: Seq<char>,
    right: Seq<char>,
    comment: Seq<char>,
)
    requires
        is_plain_text(key),
        is_plain_text(val),
        lacks(key, '='),
        key[0] != '[',
        is_blank(left) && lacks(left, '#') && lacks(left, '='),
        is_blank(right) && lacks(right, '#'),
        comment.len() > 0 ==> !white_space(comment.last()),
    ensures
        ({
            let entry = key + left + seq!['='] + right + val;
            let told = if r.in_server {
                Reading { entries: r.entries.push((key, val)), ..r }
            } else {
                r
            };
            &&& r.after_line(entry) == told
            &&& r.after_line(entry + right + seq!['#'] + comment) == told
        }),
{
    let entry = key + left + seq!['='] + right + val;
    let none = Seq::<char>::empty();
    assert(entry[0] == key[0]);
    assert(entry.last() == val.last());
    lemma_trimmed_already(entry);
    lemma_entry(key, val, left, right, none);
    assert(entry + none =~= entry);
    assert(lacks(entry, '#')) by {
        assert forall|i: int| 0 <= i < entry.len() implies #[trigger] entry[i] != '#' by {
            let a = key.len();
            let b = a + left.len();
            if i < a {
                assert(entry[i] == key[i]);
            } else if i < b {
                assert(entry[i] == left[i - a]);
            } else if b < i && i < b + 1 + right.len() {
                assert(entry[i] == right[i - b - 1]);
            } else if i > b {
                assert(entry[i] == val[i - b - 1 - right.len()]);
            }
        }
    }
    lemma_position(entry, '#', none);
    assert(before_comment(entry) == entry);
    assert(section_name(entry) is None);
    let bare = entry + right;
    let line = bare + seq!['#'] + comment;
    assert(entry + right + seq!['#'] + comment =~= line);
    assert(line[0] == key[0]);
    assert(!white_space('#'));
    assert(line.last() == (if comment.len() > 0 { comment.last() } else { '#' }));
    lemma_trimmed_already(line);
    assert(lacks(bare, '#')) by {
        assert forall|i: int| 0 <= i < bare.len() implies #[trigger] bare[i] != '#' by {
            if i < entry.len() {
                assert(bare[i] == entry[i]);
            } else {
                assert(bare[i] == right[i - entry.len()]);
            }
        }
    }
    lemma_position(bare, '#', comment);
    assert(line.take(bare.len() as int) =~= bare);
    lemma_entry(key, val, left, right, right);
}

/// What an entry holds, with blank space behind it.
proof fn lemma_entry(key: Seq<char>, val: Seq<char>, left: Seq<char>, right: Seq<char>, end: Seq<char>)
    requires
        is_plain_text(key),
        is_plain_text(val),
        lacks(key, '='),
        is_blank(left) && lacks(left, '='),
        is_blank(right),
        is_blank(end),
    ensures
        ({
            let bare = key + left + seq!['='] + right + val + end;
            &&& position(bare, '=') == Some((key + left).len() as int)
            &&& trimmed(bare.take((key + left).len() as int)) == key
            &&& trimmed(bare.skip((key + left).len() as int + 1)) == val
        }),
{
    let bare = key + left + seq!['='] + right + val + end;
    let front = key + left;
    let back = right + val + end;
    let none = Seq::<char>::empty();
    assert forall|i: int| 0 <= i < front.len() implies #[trigger] front[i] != '=' by {
        if i < key.len() {
            assert(front[i] == key[i]);
        } else {
            assert(front[i] == left[i - key.len()]);
        }
    }
    assert(bare =~= front + seq!['='] + back);
    lemma_position(front, '=', back);
    assert(bare.take(front.len() as int) =~= front);
    assert(bare.skip(front.len() as int + 1) =~= back);
    lemma_trim(none, key, left);
    assert(none + key + left =~= front);
    lemma_trim(right, val, end);
}

/// The section `[server]` is the one that counts: entries count behind its head, and no more behind
/// the head of another. Blank lines and comments change nothing.
pub proof fn law_section_heads_switch(r: Reading, name: Seq<char>, comment: Seq<char>)
    requires
        name.len() > 0,
        !white_space(name[0]),
        !white_space(name.last()),
    ensures
        r.after_line(seq!['['] + name + seq![']']) == (Reading { in_server: name == "server"@, ..r }),
        r.after_line(Seq::empty()) == r,
        r.after_line(seq!['#'] + comment) == r,
{
    let head = seq!['['] + name + seq![']'];
    assert(head[0] == '[' && head.last() == ']');
    lemma_trimmed_already(head);
    assert(head.subrange(1, head.len() - 1) =~= name);
    lemma_trimmed_already(name);
    let mark = seq!['#'] + comment;
    assert(mark[0] == '#');
    assert(trim_start(mark) == mark);
    lemma_trim_keeps_first(mark);
}

proof fn lemma_trim_keeps_first(s: Seq<char>)
    requires
        s.len() > 0,
        !white_space(s[0]),
    ensures
        trim_end(s).len() > 0,
        trim_end(s)[0] == s[0],
    decreases s.len(),
{
    if white_space(s.last()) {
        assert(s.len() > 1);
        assert(s.drop_last()[0] == s[0]);
        lemma_trim_keeps_first(s.drop_last());
    }
}

/// Lines with a line feed between them.
pub open spec fn joined_lines(lines: Seq<Seq<char>>) -> Seq<char>
    decreases lines.len(),
{
    if lines.len() == 0 {
        Seq::empty()
    } else if lines.len() == 1 {
        lines[0]
    } else {
        lines[0] + seq!['\n'] + joined_lines(lines.skip(1))
    }
}

/// A file is read line by line, and what it does not set keeps its default: no discovery setting means
/// that the device can be discovered, and the ports are 7550, 8554 and 8080.
pub proof fn law_file_is_read_line_by_line(lines: Seq<Seq<char>>)
    requires
        lines.len() > 0,
        forall|i: int| 0 <= i < lines.len() ==> lacks(#[trigger] lines[i], '\n'),
    ensures
        config_of(joined_lines(lines)) == configured(
            default_config(),
            (Reading { entries: Seq::empty(), in_server: false }).after_lines(lines).entries,
        ),
        default_config().onvif_discovery,
        default_config().listen_port == 7550,
        default_config().rtsp_port == 8554,
        default_config().onvif_port == 8080,
        default_config().server_ip is None,
        default_config().cert_path is None,
        default_config().cert_password is None,
{
    lemma_lines(lines);
}

proof fn lemma_lines(lines: Seq<Seq<char>>)
    requires
        lines.len() > 0,
        forall|i: int| 0 <= i < lines.len() ==> lacks(#[trigger] lines[i], '\n'),
    ensures
        pieces(joined_lines(lines), seq!['\n']) == lines,
    decreases lines.len(),
{
    assert(lacks(lines[0], '\n'));
    if lines.len() == 1 {
        lemma_one_piece(lines[0], '\n');
        assert(lines =~= seq![lines[0]]);
    } else {
        let tail = lines.skip(1);
        assert forall|i: int| 0 <= i < tail.len() implies lacks(#[trigger] tail[i], '\n') by {
            assert(tail[i] == lines[i + 1]);
        }
        lemma_lines(tail);
        lemma_first_piece(lines[0], '\n', joined_lines(tail));
        assert(seq![lines[0]] + tail =~= lines);
    }
}

} // verus!
