//! RCON: the server's settings for it, the packets of the protocol, and the
//! texts shown around a connection.
use vstd::prelude::*;
use vstd::string::StringExecFns;
use crate::text::{bool_string, bool_text, chars_of, contains, contains_str, decimal, decimal_string, eq_ignore_case, eq_ignore_case_chars, eq_str, find, find_chars, join, join_strings, lemma_find_from_bounds, lines, lines_chars, opt_view, parse_u16, parse_u16_of, replace_char, replace_char_chars, slice_chars, string_of, string_views, trim, trim_chars, trim_end_char, trim_end_char_chars, trim_string, trimmed, views};
use crate::server_control::{RemoteOs, powershell_escaped, powershell_literal};

verus! {

pub const SERVERDATA_AUTH: i32 = 3;

pub const SERVERDATA_EXECCOMMAND: i32 = 2;

pub const SERVERDATA_RESPONSE_VALUE: i32 = 0;

/// At most this many response packets are read for one command.
pub const MAX_RESPONSE_PACKETS: usize = 64;

pub struct RconConfig {
    pub enabled: bool,
    pub port: u16,
    pub password: String,
}

// ---------------------------------------------------------------------------
// server.properties
// ---------------------------------------------------------------------------

/// A property value with its `\:`, `\=` and `\\` escapes resolved; any other
/// backslash stays.
pub open spec fn unescaped(s: Seq<char>) -> Seq<char>
    decreases s.len(),
{
    if s.len() == 0 {
        s
    } else if s[0] == '\\' {
        if s.len() == 1 {
            seq!['\\']
        } else {
            let n = s[1];
            (if n == ':' || n == '=' || n == '\\' {
                seq![n]
            } else {
                seq!['\\', n]
            }) + unescaped(s.subrange(2, s.len() as int))
        }
    } else {
        seq![s[0]] + unescaped(s.drop_first())
    }
}

pub fn unescape_property_value(value: &str) -> (r: String)
    ensures
        r@ == unescaped(value@),
{
    let v = chars_of(value);
    let mut out: Vec<char> = Vec::new();
    let mut i: usize = 0;
    assert(v@.subrange(0, v@.len() as int) =~= v@);
    while i < v.len()
        invariant
            i <= v@.len(),
            out@ + unescaped(v@.subrange(i as int, v@.len() as int)) == unescaped(v@),
        decreases v@.len() - i,
    {
        let ghost rest = v@.subrange(i as int, v@.len() as int);
        let ch = v[i];
        if ch == '\\' {
            if i + 1 < v.len() {
                let n = v[i + 1];
                let ghost before = out@;
                if n == ':' || n == '=' || n == '\\' {
                    out.push(n);
                } else {
                    out.push('\\');
                    out.push(n);
                }
                proof {
                    assert(rest.subrange(2, rest.len() as int) =~= v@.subrange(i + 2, v@.len() as int));
                    assert(out@ + unescaped(v@.subrange(i + 2, v@.len() as int)) =~= before + unescaped(rest));
                }
                i = i + 2;
            } else {
                let ghost before = out@;
                out.push('\\');
                proof {
                    assert(v@.subrange(i + 1, v@.len() as int) =~= Seq::<char>::empty());
                    assert(out@ + unescaped(v@.subrange(i + 1, v@.len() as int)) =~= before + unescaped(rest));
                }
                i = i + 1;
            }
        } else {
            let ghost before = out@;
            out.push(ch);
            proof {
                assert(rest.drop_first() =~= v@.subrange(i + 1, v@.len() as int));
                assert(out@ + unescaped(v@.subrange(i + 1, v@.len() as int)) =~= before + unescaped(rest));
            }
            i = i + 1;
        }
    }
    assert(v@.subrange(v@.len() as int, v@.len() as int) =~= Seq::<char>::empty());
    assert(out@ + Seq::<char>::empty() =~= out@);
    string_of(&out)
}

/// The RCON settings so far, then one more line of the file: comments and
/// lines without `=` say nothing; a later setting replaces an earlier one; an
/// unreadable port is ignored.
pub open spec fn props_step(cfg: (bool, u16, Seq<char>), line: Seq<char>) -> (bool, u16, Seq<char>) {
    let l = trim(line);
    if l.len() == 0 || l[0] == '#' {
        cfg
    } else {
        match find(l, "="@) {
            None => cfg,
            Some(i) => {
                let key = trim(l.subrange(0, i));
                let value = trim(l.subrange(i + 1, l.len() as int));
                if key == "enable-rcon"@ {
                    (eq_ignore_case(value, "true"@), cfg.1, cfg.2)
                } else if key == "rcon.port"@ {
                    match parse_u16_of(value) {
                        Some(p) => (cfg.0, p, cfg.2),
                        None => cfg,
                    }
                } else if key == "rcon.password"@ {
                    (cfg.0, cfg.1, unescaped(value))
                } else {
                    cfg
                }
            },
        }
    }
}

pub open spec fn props_fold(ls: Seq<Seq<char>>) -> (bool, u16, Seq<char>)
    decreases ls.len(),
{
    if ls.len() == 0 {
        (false, 25575u16, Seq::<char>::empty())
    } else {
        props_step(props_fold(ls.drop_last()), ls.last())
    }
}

/// The RCON settings of a `server.properties` text (RCON off, port 25575 and
/// no password unless it says otherwise).
pub open spec fn rcon_settings(content: Seq<char>) -> (bool, u16, Seq<char>) {
    props_fold(lines(content))
}

pub fn parse_server_properties(content: &str) -> (r: RconConfig)
    ensures
        (r.enabled, r.port, r.password@) == rcon_settings(content@),
{
    let v = chars_of(content);
    let ls = lines_chars(&v);
    let mut enabled = false;
    let mut port: u16 = 25575;
    let mut password = String::new();
    let mut k: usize = 0;
    assert(views(ls@).take(0) =~= Seq::<Seq<char>>::empty());
    while k < ls.len()
        invariant
            k <= ls@.len(),
            views(ls@) == lines(content@),
            (enabled, port, password@) == props_fold(views(ls@).take(k as int)),
        decreases ls@.len() - k,
    {
        proof {
            assert(views(ls@).take(k + 1).drop_last() =~= views(ls@).take(k as int));
            assert(views(ls@).take(k + 1).last() == ls@[k as int]@);
        }
        let l = trim_chars(&ls[k]);
        if l.len() > 0 && l[0] != '#' {
            let eq = chars_of("=");
            match find_chars(&l, &eq) {
                None => {},
                Some(i) => {
                    proof {
                        reveal_strlit("=");
                        lemma_find_from_bounds(l@, eq@, 0);
                    }
                    let key_raw = slice_chars(&l, 0, i);
                    let key = trim_chars(&key_raw);
                    let value_raw = slice_chars(&l, i + 1, l.len());
                    let value = trim_chars(&value_raw);
                    if eq_str(&key, "enable-rcon") {
                        let t = chars_of("true");
                        enabled = eq_ignore_case_chars(&value, &t);
                    } else if eq_str(&key, "rcon.port") {
                        match parse_u16(&value) {
                            Some(p) => {
                                port = p;
                            },
                            None => {},
                        }
                    } else if eq_str(&key, "rcon.password") {
                        let vs = string_of(&value);
                        password = unescape_property_value(vs.as_str());
                    }
                },
            }
        }
        k = k + 1;
    }
    assert(views(ls@).take(ls@.len() as int) =~= views(ls@));
    RconConfig { enabled, port, password }
}

/// Where `server.properties` lies under the server's root, with `/`.
pub open spec fn properties_path_of(server_root: Seq<char>) -> Seq<char> {
    replace_char(trim_end_char(trim_end_char(trim(server_root), '/'), '\\'), '\\', "/"@)
        + "/server.properties"@
}

pub fn server_properties_remote_path(server_root: &str) -> (r: String)
    ensures
        r@ == properties_path_of(server_root@),
{
    let t = trimmed(server_root);
    let a = trim_end_char_chars(&t, '/');
    let b = trim_end_char_chars(&a, '\\');
    let slash = chars_of("/");
    let c = replace_char_chars(&b, '\\', &slash);
    let mut out = string_of(&c);
    out.append("/server.properties");
    out
}

/// The command that prints `server.properties` on the remote machine.
pub open spec fn properties_read_command_of(path: Seq<char>, os: RemoteOs) -> Seq<char> {
    match os {
        RemoteOs::Windows => "powershell -NoProfile -NonInteractive -Command \"Get-Content -LiteralPath '"@
            + powershell_escaped(replace_char(path, '/', "\\"@)) + "' -Raw -ErrorAction Stop\""@,
        RemoteOs::Linux => "cat '"@ + replace_char(path, '\'', "'\\''"@) + "'"@,
    }
}

pub fn properties_read_command(path: &str, os: RemoteOs) -> (r: String)
    ensures
        r@ == properties_read_command_of(path@, os),
{
    let v = chars_of(path);
    match os {
        RemoteOs::Windows => {
            let bs = chars_of("\\");
            let win = replace_char_chars(&v, '/', &bs);
            let win_s = string_of(&win);
            let mut out = "powershell -NoProfile -NonInteractive -Command \"Get-Content -LiteralPath '".to_string();
            out.append(powershell_literal(win_s.as_str()).as_str());
            out.append("' -Raw -ErrorAction Stop\"");
            out
        },
        RemoteOs::Linux => {
            let rep = chars_of("'\\''");
            let esc = replace_char_chars(&v, '\'', &rep);
            let mut out = "cat '".to_string();
            out.append(string_of(&esc).as_str());
            out.append("'");
            out
        },
    }
}

/// A failed read whose error output says the file is missing.
pub fn properties_missing_message(detail: &str, path: &str) -> (r: Option<String>)
    ensures
        opt_view(r) == if contains(detail@, "not found"@) || contains(detail@, "Cannot find path"@) {
            Some("server.properties не найден: "@ + path@)
        } else {
            None::<Seq<char>>
        },
{
    let d = chars_of(detail);
    if contains_str(&d, "not found") || contains_str(&d, "Cannot find path") {
        let mut m = "server.properties не найден: ".to_string();
        m.append(path);
        Some(m)
    } else {
        None
    }
}

/// The text read is kept unless it is blank.
pub fn check_properties_content(content: String, path: &str) -> (r: Result<String, String>)
    ensures
        trim(content@).len() == 0 ==> (r matches Err(e) && e@ == "server.properties пустой: "@ + path@),
        trim(content@).len() > 0 ==> (r matches Ok(c) && c@ == content@),
{
    let t = trimmed(content.as_str());
    if t.len() == 0 {
        let mut m = "server.properties пустой: ".to_string();
        m.append(path);
        return Err(m);
    }
    Ok(content)
}

/// RCON must be on and have a password.
pub fn validate_config(config: &RconConfig) -> (r: Result<(), String>)
    ensures
        !config.enabled ==> (r matches Err(e) && e@
            == "RCON отключён в server.properties (enable-rcon=false)."@),
        config.enabled && config.password@.len() == 0 ==> (r matches Err(e) && e@
            == "В server.properties не задан rcon.password."@),
        config.enabled && config.password@.len() > 0 ==> r is Ok,
{
    if !config.enabled {
        return Err("RCON отключён в server.properties (enable-rcon=false).".to_string());
    }
    if config.password.as_str().is_empty() {
        return Err("В server.properties не задан rcon.password.".to_string());
    }
    Ok(())
}

pub fn config_detail(config: &RconConfig, path: &str, ssh_alias: &str, connect_host: &str) -> (r: String)
    ensures
        r@ == "Файл: "@ + path@ + ". enable-rcon="@ + bool_text(config.enabled) + ", rcon.port="@
            + decimal(config.port as nat) + ", пароль задан. Подключение: "@ + connect_host@
            + " (SSH: "@ + ssh_alias@ + "). IP в server.properties не нужен."@,
{
    let mut out = "Файл: ".to_string();
    out.append(path);
    out.append(". enable-rcon=");
    out.append(bool_string(config.enabled).as_str());
    out.append(", rcon.port=");
    out.append(decimal_string(config.port as u64).as_str());
    out.append(", пароль задан. Подключение: ");
    out.append(connect_host);
    out.append(" (SSH: ");
    out.append(ssh_alias);
    out.append("). IP в server.properties не нужен.");
    out
}

pub open spec fn not_listening_text(port: u16) -> Seq<char> {
    "Порт "@ + decimal(port as nat)
        + " не слушается на сервере. В server.properties нужны enable-rcon=true и rcon.password, затем полный перезапуск сервера (stop и start)."@
}

pub fn port_not_listening_message(port: u16) -> (r: String)
    ensures
        r@ == not_listening_text(port),
{
    let mut out = "Порт ".to_string();
    out.append(decimal_string(port as u64).as_str());
    out.append(
        " не слушается на сервере. В server.properties нужны enable-rcon=true и rcon.password, затем полный перезапуск сервера (stop и start).",
    );
    out
}

/// Why no connection could be made: every attempt's error, or the port
/// message when there were none.
pub fn connect_failure_message(port: u16, errors: &Vec<String>) -> (r: String)
    ensures
        r@ == if errors@.len() == 0 {
            not_listening_text(port)
        } else {
            join(string_views(errors@), " "@)
        },
{
    if errors.len() == 0 {
        port_not_listening_message(port)
    } else {
        join_strings(errors, " ")
    }
}

/// The report of a working connection.
pub fn rcon_ok_message(connect_label: &str, via_tunnel: bool) -> (r: String)
    ensures
        r@ == "RCON доступен ("@ + connect_label@ + ")"@ + if via_tunnel {
            " Через SSH-туннель (порт доступен только на сервере)."@
        } else {
            Seq::<char>::empty()
        },
{
    let mut out = "RCON доступен (".to_string();
    out.append(connect_label);
    out.append(")");
    if via_tunnel {
        out.append(" Через SSH-туннель (порт доступен только на сервере).");
    }
    proof {
        if !via_tunnel {
            assert(out@ =~= out@ + Seq::<char>::empty());
        }
    }
    out
}

/// The command to send, trimmed; a blank one is refused.
pub fn rcon_command_text(command: &str) -> (r: Result<String, String>)
    ensures
        trim(command@).len() == 0 ==> (r matches Err(e) && e@ == "Введите команду."@),
        trim(command@).len() > 0 ==> (r matches Ok(c) && c@ == trim(command@)),
{
    let t = trim_string(command);
    if t.as_str().is_empty() {
        return Err("Введите команду.".to_string());
    }
    Ok(t)
}

// ---------------------------------------------------------------------------
// Packets
// ---------------------------------------------------------------------------

/// The four little-endian bytes of a 32-bit value.
pub open spec fn le32(x: u32) -> Seq<u8> {
    seq![(x % 256) as u8, ((x / 256) % 256) as u8, ((x / 65536) % 256) as u8, (x / 16777216) as u8]
}

pub open spec fn from_le32(b: Seq<u8>) -> u32 {
    (b[0] + 256 * b[1] + 65536 * b[2] + 16777216 * b[3]) as u32
}

pub proof fn lemma_le32_round_trip(x: u32)
    ensures
        le32(x).len() == 4,
        from_le32(le32(x)) == x,
{
    let b = le32(x);
    assert(b[0] + 256 * b[1] + 65536 * b[2] + 16777216 * b[3] == x) by (nonlinear_arith)
        requires
            b[0] == x % 256,
            b[1] == (x / 256) % 256,
            b[2] == (x / 65536) % 256,
            b[3] == x / 16777216,
            x < 0x1_0000_0000,
    {
    }
}

fn push_le32(out: &mut Vec<u8>, x: u32)
    ensures
        final(out)@ == old(out)@ + le32(x),
{
    out.push((x % 256) as u8);
    out.push(((x / 256) % 256) as u8);
    out.push(((x / 65536) % 256) as u8);
    out.push((x / 16777216) as u8);
    assert(out@ =~= old(out)@ + le32(x));
}

fn read_le32(b: &[u8], at: usize) -> (r: u32)
    requires
        at + 4 <= b@.len(),
    ensures
        r == from_le32(b@.subrange(at as int, at + 4)),
{
    let v: u32 = b[at] as u32 + 256 * (b[at + 1] as u32) + 65536 * (b[at + 2] as u32) + 16777216 * (
    b[at + 3] as u32);
    v
}

/// The bytes of one packet: length, id, type, body and two zero bytes; the
/// length counts what follows it.
pub open spec fn packet_bytes(id: i32, packet_type: i32, body: Seq<u8>) -> Seq<u8> {
    le32(((10 + body.len()) as i32) as u32) + le32(id as u32) + le32(packet_type as u32) + body + seq![
        0u8,
        0u8,
    ]
}

pub fn encode_packet(id: i32, packet_type: i32, body: &[u8]) -> (r: Vec<u8>)
    requires
        body@.len() <= 0x7fff_fff0,
    ensures
        r@ == packet_bytes(id, packet_type, body@),
{
    let length = (4 + 4 + body.len() + 2) as i32;
    let mut out: Vec<u8> = Vec::new();
    push_le32(&mut out, length as u32);
    push_le32(&mut out, id as u32);
    push_le32(&mut out, packet_type as u32);
    let mut i: usize = 0;
    let ghost head = out@;
    while i < body.len()
        invariant
            i <= body@.len(),
            out@ == head + body@.take(i as int),
        decreases body@.len() - i,
    {
        out.push(body[i]);
        assert(body@.take(i + 1) =~= body@.take(i as int).push(body@[i as int]));
        i = i + 1;
    }
    out.push(0);
    out.push(0);
    assert(body@.take(body@.len() as int) =~= body@);
    assert(out@ =~= packet_bytes(id, packet_type, body@));
    out
}

/// A length field the client accepts.
pub fn packet_length_ok(length: i32) -> (r: bool)
    ensures
        r == (10 <= length <= 4096),
{
    10 <= length && length <= 4096
}

pub fn packet_length(header: &[u8]) -> (r: i32)
    requires
        header@.len() == 4,
    ensures
        r == from_le32(header@) as i32,
{
    let v = read_le32(header, 0);
    assert(header@.subrange(0, 4) =~= header@);
    v as i32
}

/// The id, type and body of the bytes after the length field: the body
/// runs from byte 8 to two bytes before the end.
pub open spec fn packet_fields(rest: Seq<u8>) -> (i32, i32, Seq<u8>) {
    (
        from_le32(rest.subrange(0, 4)) as i32,
        from_le32(rest.subrange(4, 8)) as i32,
        if rest.len() - 2 > 8 {
            rest.subrange(8, rest.len() - 2)
        } else {
            Seq::<u8>::empty()
        },
    )
}

pub fn decode_packet(rest: &[u8]) -> (r: (i32, i32, Vec<u8>))
    requires
        rest@.len() >= 8,
    ensures
        (r.0, r.1, r.2@) == packet_fields(rest@),
{
    let id = read_le32(rest, 0) as i32;
    let packet_type = read_le32(rest, 4) as i32;
    let body_end = if rest.len() >= 2 {
        rest.len() - 2
    } else {
        0
    };
    let mut body: Vec<u8> = Vec::new();
    if body_end > 8 {
        let mut i: usize = 8;
        while i < body_end
            invariant
                8 <= i <= body_end,
                body_end == rest@.len() - 2,
                body@ == rest@.subrange(8, i as int),
            decreases body_end - i,
        {
            body.push(rest[i]);
            assert(rest@.subrange(8, i + 1) =~= rest@.subrange(8, i as int).push(rest@[i as int]));
            i = i + 1;
        }
    } else {
        assert(body@ =~= Seq::<u8>::empty());
    }
    (id, packet_type, body)
}

/// What a written packet reads back as: a length the client accepts, and the
/// same id, type and body.
pub proof fn lemma_packet_round_trip(id: i32, packet_type: i32, body: Seq<u8>)
    requires
        body.len() <= 4086,
    ensures
        ({
            let bytes = packet_bytes(id, packet_type, body);
            let length = from_le32(bytes.subrange(0, 4)) as i32;
            &&& 10 <= length <= 4096
            &&& bytes.len() == 4 + length
            &&& packet_fields(bytes.subrange(4, bytes.len() as int)) == (id, packet_type, body)
        }),
{
    let bytes = packet_bytes(id, packet_type, body);
    let n = ((10 + body.len()) as i32) as u32;
    assert(n == 10 + body.len());
    lemma_le32_round_trip(n);
    lemma_le32_round_trip(id as u32);
    lemma_le32_round_trip(packet_type as u32);
    assert(bytes.subrange(0, 4) =~= le32(n));
    let rest = bytes.subrange(4, bytes.len() as int);
    assert(rest.subrange(0, 4) =~= le32(id as u32));
    assert(rest.subrange(4, 8) =~= le32(packet_type as u32));
    assert((id as u32) as i32 == id) by (bit_vector);
    assert((packet_type as u32) as i32 == packet_type) by (bit_vector);
    if body.len() > 0 {
        assert(rest.subrange(8, rest.len() - 2) =~= body);
    } else {
        assert(body =~= Seq::<u8>::empty());
    }
}

/// One response packet added to a command's output; says whether to read
/// on. Packets of other types are skipped and an empty body ends the
/// output; bodies are joined by new lines.
pub fn absorb_response(output: &mut String, packet_type: i32, body: &str) -> (more: bool)
    ensures
        packet_type != SERVERDATA_RESPONSE_VALUE ==> more && final(output)@ == old(output)@,
        packet_type == SERVERDATA_RESPONSE_VALUE && body@.len() == 0 ==> !more && final(output)@
            == old(output)@,
        packet_type == SERVERDATA_RESPONSE_VALUE && body@.len() > 0 ==> more && final(output)@ == (
        if old(output)@.len() == 0 {
            body@
        } else {
            old(output)@ + "\n"@ + body@
        }),
{
    if packet_type != SERVERDATA_RESPONSE_VALUE {
        return true;
    }
    if body.is_empty() {
        return false;
    }
    if !output.as_str().is_empty() {
        output.append("\n");
    } else {
        assert(old(output)@ =~= Seq::<char>::empty());
    }
    output.append(body);
    true
}

} // verus!
