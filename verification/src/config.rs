//! The configuration file: `key = value` lines in a `[server]` section. Whatever is missing or wrong
//! keeps its default.

use crate::defaults::{
    DEFAULT_CONTROLLER_NAME, DEFAULT_CONTROLLER_UUID, DEFAULT_CONTROLLER_VERSION, DEFAULT_FIRMWARE, DEFAULT_SERIAL,
};
use crate::text::{
    chars_eq, chars_of, eq_ignore_case, find_char, lowered, parse_unsigned, pieces, position, split, string_of,
    str_eq, text_views, trim, trimmed, unsigned_numeral,
};
use vstd::prelude::*;
use vstd::slice::slice_subrange;

verus! {

/// Port that cameras send their stream to.
pub const DEFAULT_LISTEN_PORT: u16 = 7550;

/// Port of the RTSP server.
pub const DEFAULT_RTSP_PORT: u16 = 8554;

/// Port of the ONVIF server.
pub const DEFAULT_ONVIF_PORT: u16 = 8080;

/// Certificate file beside the program.
pub const DEFAULT_CERT_FILE: &'static str = "flvproxy_cert.pfx";

/// Address that is announced where no other is known.
pub const LOOPBACK_IPV4: &'static str = "127.0.0.1";

/// The configuration.
#[derive(Debug, Clone, PartialEq, Eq)]
pub struct Config {
    pub listen_port: u16,
    pub rtsp_port: u16,
    pub onvif_port: u16,
    /// Whether the proxy can be discovered.
    pub onvif_discovery: bool,
    /// The address to announce; found out where it is not set.
    pub server_ip: Option<String>,
    pub cert_path: Option<String>,
    pub cert_password: Option<String>,
    pub controller_name: String,
    pub controller_uuid: String,
    pub controller_version: String,
}

/// What a configuration stands for.
#[verifier::ext_equal]
pub struct ConfigView {
    pub listen_port: u16,
    pub rtsp_port: u16,
    pub onvif_port: u16,
    pub onvif_discovery: bool,
    pub server_ip: Option<Seq<char>>,
    pub cert_path: Option<Seq<char>>,
    pub cert_password: Option<Seq<char>>,
    pub controller_name: Seq<char>,
    pub controller_uuid: Seq<char>,
    pub controller_version: Seq<char>,
}

/// An optional text.
pub open spec fn text_option(t: Option<String>) -> Option<Seq<char>> {
    match t {
        Some(s) => Some(s@),
        None => None,
    }
}

impl View for Config {
    type V = ConfigView;

    open spec fn view(&self) -> ConfigView {
        ConfigView {
            listen_port: self.listen_port,
            rtsp_port: self.rtsp_port,
            onvif_port: self.onvif_port,
            onvif_discovery: self.onvif_discovery,
            server_ip: text_option(self.server_ip),
            cert_path: text_option(self.cert_path),
            cert_password: text_option(self.cert_password),
            controller_name: self.controller_name@,
            controller_uuid: self.controller_uuid@,
            controller_version: self.controller_version@,
        }
    }
}

/// The configuration of an empty file.
pub open spec fn default_config() -> ConfigView {
    ConfigView {
        listen_port: DEFAULT_LISTEN_PORT,
        rtsp_port: DEFAULT_RTSP_PORT,
        onvif_port: DEFAULT_ONVIF_PORT,
        onvif_discovery: true,
        server_ip: None,
        cert_path: None,
        cert_password: None,
        controller_name: DEFAULT_CONTROLLER_NAME@,
        controller_uuid: DEFAULT_CONTROLLER_UUID@,
        controller_version: DEFAULT_CONTROLLER_VERSION@,
    }
}

impl Default for Config {
    fn default() -> (r: Config)
        ensures
            r@ == default_config(),
    {
        Config {
            listen_port: DEFAULT_LISTEN_PORT,
            rtsp_port: DEFAULT_RTSP_PORT,
            onvif_port: DEFAULT_ONVIF_PORT,
            onvif_discovery: true,
            server_ip: None,
            cert_path: None,
            cert_password: None,
            controller_name: DEFAULT_CONTROLLER_NAME.to_owned(),
            controller_uuid: DEFAULT_CONTROLLER_UUID.to_owned(),
            controller_version: DEFAULT_CONTROLLER_VERSION.to_owned(),
        }
    }
}

/// The truth value that a text names, however it is capitalised.
pub open spec fn bool_of(val: Seq<char>) -> Option<bool> {
    if lowered(val) == lowered("true"@) {
        Some(true)
    } else if lowered(val) == lowered("false"@) {
        Some(false)
    } else {
        None
    }
}

/// The port that a text names.
pub open spec fn port_of(val: Seq<char>) -> Option<u16> {
    match unsigned_numeral(val, 65535) {
        Some(n) => Some(n as u16),
        None => None,
    }
}

/// `prior` where the value is wrong.
pub open spec fn or_kept<T>(value: Option<T>, prior: T) -> T {
    match value {
        Some(v) => v,
        None => prior,
    }
}

/// A configuration after one entry. Unknown keys and wrong values change nothing.
pub open spec fn applied(c: ConfigView, key: Seq<char>, val: Seq<char>) -> ConfigView {
    if key == "listen_port"@ {
        ConfigView { listen_port: or_kept(port_of(val), c.listen_port), ..c }
    } else if key == "rtsp_port"@ {
        ConfigView { rtsp_port: or_kept(port_of(val), c.rtsp_port), ..c }
    } else if key == "onvif_port"@ {
        ConfigView { onvif_port: or_kept(port_of(val), c.onvif_port), ..c }
    } else if key == "onvif_discovery"@ {
        ConfigView { onvif_discovery: or_kept(bool_of(val), c.onvif_discovery), ..c }
    } else if key == "server_ip"@ {
        ConfigView { server_ip: Some(val), ..c }
    } else if key == "cert_path"@ {
        ConfigView { cert_path: Some(val), ..c }
    } else if key == "cert_password"@ {
        ConfigView { cert_password: Some(val), ..c }
    } else if key == "controller_name"@ {
        ConfigView { controller_name: val, ..c }
    } else if key == "controller_uuid"@ {
        ConfigView { controller_uuid: val, ..c }
    } else if key == "controller_version"@ {
        ConfigView { controller_version: val, ..c }
    } else {
        c
    }
}

/// The name in brackets, if a line is a section header.
pub open spec fn section_name(line: Seq<char>) -> Option<Seq<char>> {
    if line.len() >= 2 && line[0] == '[' && line.last() == ']' {
        Some(trimmed(line.subrange(1, line.len() - 1)))
    } else {
        None
    }
}

/// A line without its comment.
pub open spec fn before_comment(line: Seq<char>) -> Seq<char> {
    match position(line, '#') {
        Some(i) => line.take(i),
        None => line,
    }
}

/// The key and the value of a line, if it has both.
pub open spec fn entry_of(line: Seq<char>) -> Option<(Seq<char>, Seq<char>)> {
    let bare = before_comment(line);
    match position(bare, '=') {
        Some(i) => {
            let key = trimmed(bare.take(i));
            let val = trimmed(bare.skip(i + 1));
            if key.len() == 0 || val.len() == 0 {
                None
            } else {
                Some((key, val))
            }
        },
        None => None,
    }
}

/// An entry: a key and its value.
pub type Pair = (Seq<char>, Seq<char>);

/// Where reading stands: the entries so far, and whether the section is the right one.
#[verifier::ext_equal]
pub struct Reading {
    pub entries: Seq<Pair>,
    pub in_server: bool,
}

impl Reading {
    /// After one line.
    pub open spec fn after_line(self, raw: Seq<char>) -> Reading {
        let line = trimmed(raw);
        if line.len() == 0 || line[0] == '#' {
            self
        } else {
            match section_name(line) {
                Some(name) => Reading { in_server: name == "server"@, ..self },
                None => match entry_of(line) {
                    Some(pair) if self.in_server => Reading { entries: self.entries.push(pair), ..self },
                    _ => self,
                },
            }
        }
    }

    /// After lines, one after the other.
    pub open spec fn after_lines(self, lines: Seq<Seq<char>>) -> Reading
        decreases lines.len(),
    {
        if lines.len() == 0 {
            self
        } else {
            self.after_lines(lines.drop_last()).after_line(lines.last())
        }
    }
}

/// The entries of a text's `[server]` sections, in order.
pub open spec fn entries_in(text: Seq<char>) -> Seq<Pair> {
    (Reading { entries: Seq::empty(), in_server: false }).after_lines(pieces(text, seq!['\n'])).entries
}

/// A configuration after entries, one after the other.
pub open spec fn configured(c: ConfigView, entries: Seq<Pair>) -> ConfigView
    decreases entries.len(),
{
    if entries.len() == 0 {
        c
    } else {
        let last = entries.last();
        applied(configured(c, entries.drop_last()), last.0, last.1)
    }
}

/// The configuration that a text writes.
pub open spec fn config_of(text: Seq<char>) -> ConfigView {
    configured(default_config(), entries_in(text))
}

/// The value of the last entry under a key, or `otherwise`.
pub open spec fn last_value(entries: Seq<Pair>, key: Seq<char>, otherwise: Seq<char>) -> Seq<char>
    decreases entries.len(),
{
    if entries.len() == 0 {
        otherwise
    } else if entries.last().0 == key {
        entries.last().1
    } else {
        last_value(entries.drop_last(), key, otherwise)
    }
}

/// What entries stand for.
pub open spec fn pairs_of(entries: Seq<(String, String)>) -> Seq<Pair> {
    Seq::new(entries.len(), |i: int| (entries[i].0@, entries[i].1@))
}

/// Reads `true` or `false`, however it is capitalised; nothing else counts.
pub fn parse_bool(val: &str) -> (r: Result<bool, ()>)
    ensures
        match bool_of(val@) {
            Some(b) => r == Ok::<bool, ()>(b),
            None => r is Err,
        },
{
    let chars = chars_of(val);
    if eq_ignore_case(chars.as_slice(), chars_of("true").as_slice()) {
        Ok(true)
    } else if eq_ignore_case(chars.as_slice(), chars_of("false").as_slice()) {
        Ok(false)
    } else {
        Err(())
    }
}

/// Reads a port number.
fn parse_port(val: &str) -> (r: Option<u16>)
    ensures
        r == port_of(val@),
{
    let chars = chars_of(val);
    match parse_unsigned(chars.as_slice(), 65535) {
        Some(n) => Some(n as u16),
        None => None,
    }
}

/// Applies one entry.
pub fn apply_pair(cfg: &mut Config, key: &str, val: &str)
    ensures
        final(cfg)@ == applied(old(cfg)@, key@, val@),
{
    if str_eq(key, "listen_port") {
        if let Some(v) = parse_port(val) {
            cfg.listen_port = v;
        }
    } else if str_eq(key, "rtsp_port") {
        if let Some(v) = parse_port(val) {
            cfg.rtsp_port = v;
        }
    } else if str_eq(key, "onvif_port") {
        if let Some(v) = parse_port(val) {
            cfg.onvif_port = v;
        }
    } else if str_eq(key, "onvif_discovery") {
        if let Ok(v) = parse_bool(val) {
            cfg.onvif_discovery = v;
        }
    } else if str_eq(key, "server_ip") {
        cfg.server_ip = Some(val.to_owned());
    } else if str_eq(key, "cert_path") {
        cfg.cert_path = Some(val.to_owned());
    } else if str_eq(key, "cert_password") {
        cfg.cert_password = Some(val.to_owned());
    } else if str_eq(key, "controller_name") {
        cfg.controller_name = val.to_owned();
    } else if str_eq(key, "controller_uuid") {
        cfg.controller_uuid = val.to_owned();
    } else if str_eq(key, "controller_version") {
        cfg.controller_version = val.to_owned();
    }
}

/// The text of a run of characters.
fn owned(v: &[char]) -> (r: String)
    ensures
        r@ == v@,
{
    let count: usize = v.len();
    let r = string_of(v, 0, count);
    assert(r@ =~= v@);
    r
}

/// Reads one line, and gives whether the section is the right one from there on.
fn read_line(entries: &mut Vec<(String, String)>, in_server: bool, raw: &[char]) -> (r: bool)
    ensures
        (Reading { entries: pairs_of(final(entries)@), in_server: r }) == (Reading {
            entries: pairs_of(old(entries)@),
            in_server,
        }).after_line(raw@),
{
    let line = trim(raw);
    let len: usize = line.len();
    if len == 0 || line[0] == '#' {
        return in_server;
    }
    if len >= 2 && line[0] == '[' && line[len - 1] == ']' {
        let inner = slice_subrange(line, 1, len - 1);
        let name = trim(inner);
        return chars_eq(name, chars_of("server").as_slice());
    }
    if !in_server {
        return false;
    }
    let end: usize = match find_char(line, '#') {
        Some(i) => i,
        None => len,
    };
    let bare = slice_subrange(line, 0, end);
    assert(bare@ =~= before_comment(line@));
    match find_char(bare, '=') {
        Some(i) => {
            let before = slice_subrange(bare, 0, i);
            let after = slice_subrange(bare, i + 1, end);
            assert(before@ =~= bare@.take(i as int));
            assert(after@ =~= bare@.skip(i + 1));
            let key = trim(before);
            let val = trim(after);
            if key.len() > 0 && val.len() > 0 {
                let pair = (owned(key), owned(val));
                let ghost prior = entries@;
                entries.push(pair);
                assert(pairs_of(entries@) =~= pairs_of(prior).push((key@, val@)));
            }
        },
        None => {},
    }
    true
}

/// The entries of the `[server]` sections, in order.
pub fn server_entries(text: &str) -> (r: Vec<(String, String)>)
    ensures
        pairs_of(r@) == entries_in(text@),
{
    let mut entries: Vec<(String, String)> = Vec::new();
    let mut in_server = false;
    let chars = chars_of(text);
    let line_end: [char; 1] = ['\n'];
    assert(line_end@ =~= seq!['\n']);
    let lines = split(chars.as_slice(), line_end.as_slice());
    let ghost views = text_views(lines@);
    let ghost start = Reading { entries: Seq::empty(), in_server: false };
    let mut i: usize = 0;
    assert(views.take(0) =~= Seq::empty());
    assert(pairs_of(entries@) =~= Seq::empty());
    while i < lines.len()
        invariant
            i <= lines@.len(),
            views == text_views(lines@),
            start == (Reading { entries: Seq::empty(), in_server: false }),
            (Reading { entries: pairs_of(entries@), in_server }) == start.after_lines(views.take(i as int)),
        decreases lines@.len() - i,
    {
        in_server = read_line(&mut entries, in_server, lines[i].as_slice());
        proof {
            assert(views.take(i + 1).drop_last() =~= views.take(i as int));
            assert(views.take(i + 1).last() == lines@[i as int]@);
        }
        i += 1;
    }
    assert(views.take(views.len() as int) =~= views);
    entries
}

/// Reads a configuration file's text.
pub fn parse_ini(text: &str) -> (r: Config)
    ensures
        r@ == config_of(text@),
{
    let mut cfg = Config::default();
    let entries = server_entries(text);
    let ghost pairs = pairs_of(entries@);
    let mut i: usize = 0;
    assert(pairs.take(0) =~= Seq::empty());
    while i < entries.len()
        invariant
            i <= entries@.len(),
            pairs == pairs_of(entries@),
            cfg@ == configured(default_config(), pairs.take(i as int)),
        decreases entries@.len() - i,
    {
        apply_pair(&mut cfg, entries[i].0.as_str(), entries[i].1.as_str());
        proof {
            assert(pairs.take(i + 1).drop_last() =~= pairs.take(i as int));
            assert(pairs.take(i + 1).last() == pairs[i as int]);
        }
        i += 1;
    }
    assert(pairs.take(pairs.len() as int) =~= pairs);
    cfg
}

/// What the proxy says of itself where the camera has not told.
#[derive(Debug, Clone, PartialEq, Eq)]
pub struct DeviceDefaults {
    /// The `firmware` entry.
    pub firmware: String,
    /// The `serial` entry.
    pub serial: String,
}

/// Reads the `firmware` and `serial` entries of a configuration file's text.
pub fn device_defaults(text: &str) -> (r: DeviceDefaults)
    ensures
        r.firmware@ == last_value(entries_in(text@), "firmware"@, DEFAULT_FIRMWARE@),
        r.serial@ == last_value(entries_in(text@), "serial"@, DEFAULT_SERIAL@),
{
    let entries = server_entries(text);
    let ghost pairs = pairs_of(entries@);
    let mut firmware = DEFAULT_FIRMWARE.to_owned();
    let mut serial = DEFAULT_SERIAL.to_owned();
    let mut i: usize = 0;
    while i < entries.len()
        invariant
            i <= entries@.len(),
            pairs == pairs_of(entries@),
            firmware@ == last_value(pairs.take(i as int), "firmware"@, DEFAULT_FIRMWARE@),
            serial@ == last_value(pairs.take(i as int), "serial"@, DEFAULT_SERIAL@),
        decreases entries@.len() - i,
    {
        proof {
            assert(pairs.take(i + 1).drop_last() =~= pairs.take(i as int));
            assert(pairs.take(i + 1).last() == pairs[i as int]);
        }
        if str_eq(entries[i].0.as_str(), "firmware") {
            firmware = entries[i].1.as_str().to_owned();
        }
        if str_eq(entries[i].0.as_str(), "serial") {
            serial = entries[i].1.as_str().to_owned();
        }
        i += 1;
    }
    assert(pairs.take(pairs.len() as int) =~= pairs);
    DeviceDefaults { firmware, serial }
}

impl Config {
    /// The configuration from a file's text, or the defaults where the file could not be read.
    pub fn load_or_default(text: Option<&str>) -> (r: Config)
        ensures
            r@ == (match text {
                Some(t) => config_of(t@),
                None => default_config(),
            }),
    {
        match text {
            Some(t) => parse_ini(t),
            None => Config::default(),
        }
    }

    /// The address to announce: the one that is set, or else the one that was found, or else the
    /// loopback address.
    pub fn advertised_server_ip(&self, detected: Option<&str>) -> (r: String)
        ensures
            r@ == (match self@.server_ip {
                Some(ip) => ip,
                None => match detected {
                    Some(ip) => ip@,
                    None => LOOPBACK_IPV4@,
                },
            }),
    {
        match &self.server_ip {
            Some(ip) => ip.as_str().to_owned(),
            None => match detected {
                Some(ip) => ip.to_owned(),
                None => LOOPBACK_IPV4.to_owned(),
            },
        }
    }
}

/// Lines outside a `[server]` section write nothing, up to the next section header.
pub proof fn law_other_sections_do_not_count(r: Reading, lines: Seq<Seq<char>>)
    requires
        !r.in_server,
        forall|i: int| 0 <= i < lines.len() ==> section_name(trimmed(#[trigger] lines[i])) is None,
    ensures
        r.after_lines(lines) == r,
    decreases lines.len(),
{
    if lines.len() > 0 {
        assert forall|i: int| 0 <= i < lines.drop_last().len() implies section_name(
            trimmed(#[trigger] lines.drop_last()[i]),
        ) is None by {
            assert(lines.drop_last()[i] == lines[i]);
        }
        law_other_sections_do_not_count(r, lines.drop_last());
    }
}

/// Entries are read one after the other: what comes later is applied to what came before.
pub proof fn law_entries_apply_in_order(c: ConfigView, first: Seq<Pair>, second: Seq<Pair>)
    ensures
        configured(c, first + second) == configured(configured(c, first), second),
    decreases second.len(),
{
    if second.len() == 0 {
        assert(first + second =~= first);
    } else {
        assert((first + second).drop_last() =~= first + second.drop_last());
        law_entries_apply_in_order(c, first, second.drop_last());
    }
}

/// Whether an entry says anything: its key is known, and its value is right for the key.
pub open spec fn is_meaningful(key: Seq<char>, val: Seq<char>) -> bool {
    if key == "listen_port"@ || key == "rtsp_port"@ || key == "onvif_port"@ {
        port_of(val) is Some
    } else if key == "onvif_discovery"@ {
        bool_of(val) is Some
    } else {
        ||| key == "server_ip"@
        ||| key == "cert_path"@
        ||| key == "cert_password"@
        ||| key == "controller_name"@
        ||| key == "controller_uuid"@
        ||| key == "controller_version"@
    }
}

/// Entries that are unknown or wrong leave the configuration as it was, however many there are.
pub proof fn law_bad_entries_change_nothing(c: ConfigView, entries: Seq<Pair>)
    requires
        forall|i: int| 0 <= i < entries.len() ==> !is_meaningful((#[trigger] entries[i]).0, entries[i].1),
    ensures
        configured(c, entries) == c,
    decreases entries.len(),
{
    if entries.len() > 0 {
        let head = entries.drop_last();
        assert forall|i: int| 0 <= i < head.len() implies !is_meaningful((#[trigger] head[i]).0, head[i].1) by {
            assert(head[i] == entries[i]);
        }
        law_bad_entries_change_nothing(c, head);
        let last = entries[entries.len() - 1];
        assert(!is_meaningful(last.0, last.1));
        assert(applied(c, last.0, last.1) =~= c);
    }
}

} // verus!
