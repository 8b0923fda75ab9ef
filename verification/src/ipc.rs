//! The control protocol: the commands a client may send, the responses the
//! daemon gives, and the line-delimited wire codec for both.

use vstd::prelude::*;

use crate::text::{
    dec_digit, dec_str, digit_val, is_dec_digit, lit_at, num_token, trim, u64_to_string,
    chars_eq_lit, lemma_dec_str_wf, lemma_num_token_canonical, lemma_num_token_complete,
    match_lit, parse_u64, trimmed_chars,
};

verus! {

/// A control request. A client sends exactly one per connection and awaits
/// exactly one response.
#[derive(Clone, Copy, Debug, PartialEq, Eq, Structural)]
pub enum Command {
    Pause,
    Resume,
    Stop,
    Status,
    Ring,
    Reload,
}

/// A read-only projection of the daemon context at the instant of a Status
/// query.
#[derive(Clone, Debug, PartialEq, Eq)]
pub struct StatusInfo {
    /// The state label: `running`, `paused` or `locked`.
    pub state: String,
    /// Seconds until the next scheduled ring; absent unless running.
    pub next_bell_secs: Option<u64>,
    /// The configured interval in minutes.
    pub interval_mins: u64,
    /// Bells rung since the daemon started.
    pub total_bells_session: u64,
}

/// A control response. `Okay` is the bare success answer (its wire tag is
/// `Ok`).
#[derive(Clone, Debug, PartialEq, Eq)]
pub enum Response {
    Okay,
    Status(StatusInfo),
    Error(String),
}

/// Errors a client can hit while talking to the daemon. The binary maps I/O
/// failures into these.
#[derive(Clone, Debug, PartialEq, Eq)]
pub enum IpcError {
    /// The control endpoint could not be created or used.
    SocketError(String),
    /// A message could not be encoded or decoded.
    SerializeError(String),
    /// The daemon is not running.
    DaemonNotRunning,
    /// Connecting to the endpoint failed.
    ConnectionFailed(String),
}

/// Client-side helpers.
pub struct IpcClient;

/// Relies on std's `Path::exists`: whether the filesystem has an entry at
/// the path right now (false when the metadata cannot be read). Disk state
/// decides the answer, so nothing is promised of it.
#[verifier::external_body]
fn path_exists(path: &str) -> bool {
    std::path::Path::new(path).exists()
}

impl IpcClient {
    /// Whether a daemon instance appears to be running: the control endpoint
    /// artifact exists at the given path. A client that sees `false` must
    /// report that the daemon is not running instead of connecting.
    pub fn is_daemon_running(socket_path: &str) -> bool {
        path_exists(socket_path)
    }
}

// ---------------------------------------------------------------------------
// The wire format.
//
// One message per line, in a fixed JSON shape. Requests are tagged objects
// without payload; responses carry their payload under `data`. Strings are
// escaped so that an encoded message never spans more than one line.
// ---------------------------------------------------------------------------

pub open spec fn hex_digit(n: int) -> char
    recommends
        0 <= n < 16,
{
    if n < 10 {
        dec_digit(n)
    } else {
        (87 + n) as char
    }
}

pub open spec fn is_hex_digit(c: char) -> bool {
    is_dec_digit(c) || ('a' <= c && c <= 'f')
}

pub open spec fn hex_val(c: char) -> int
    recommends
        is_hex_digit(c),
{
    if is_dec_digit(c) {
        digit_val(c)
    } else {
        c as int - 87
    }
}

/// How one character appears inside an encoded string: quotes, backslashes
/// and the common control characters get two-character escapes, other control
/// characters a four-digit hex escape, everything else stands for itself.
pub open spec fn escape_char(c: char) -> Seq<char> {
    if c == '"' {
        seq!['\\', '"']
    } else if c == '\\' {
        seq!['\\', '\\']
    } else if c == '\n' {
        seq!['\\', 'n']
    } else if c == '\r' {
        seq!['\\', 'r']
    } else if c == '\t' {
        seq!['\\', 't']
    } else if (c as int) < 32 {
        seq!['\\', 'u', '0', '0', hex_digit(c as int / 16), hex_digit(c as int % 16)]
    } else {
        seq![c]
    }
}

/// The escaped form of a whole string.
pub open spec fn escape_seq(s: Seq<char>) -> Seq<char>
    decreases s.len(),
{
    if s.len() == 0 {
        Seq::empty()
    } else {
        escape_char(s[0]) + escape_seq(s.drop_first())
    }
}

pub proof fn lemma_escape_seq_push(s: Seq<char>, c: char)
    ensures
        escape_seq(s.push(c)) == escape_seq(s) + escape_char(c),
    decreases s.len(),
{
    if s.len() == 0 {
        assert(s.push(c).drop_first() =~= Seq::<char>::empty());
        assert(s.push(c)[0] == c);
        assert(escape_seq(Seq::<char>::empty()) =~= Seq::<char>::empty());
        assert(escape_seq(s.push(c)) =~= escape_seq(s) + escape_char(c));
    } else {
        lemma_escape_seq_push(s.drop_first(), c);
        assert(s.push(c).drop_first() =~= s.drop_first().push(c));
        assert(s.push(c)[0] == s[0]);
        assert(escape_seq(s.push(c)) == escape_char(s[0]) + escape_seq(s.drop_first().push(c)));
        assert(escape_seq(s.push(c)) =~= escape_seq(s) + escape_char(c));
    }
}

/// Append the escaped form of `s` to `out`.
fn append_escaped(out: &mut String, s: &str)
    ensures
        final(out)@ == old(out)@ + escape_seq(s@),
{
    let n = s.unicode_len();
    let mut i: usize = 0;
    while i < n
        invariant
            i <= n,
            n == s@.len(),
            out@ == old(out)@ + escape_seq(s@.subrange(0, i as int)),
        decreases n - i,
    {
        let c = s.get_char(i);
        proof {
            lemma_escape_seq_push(s@.subrange(0, i as int), c);
            assert(s@.subrange(0, i + 1) =~= s@.subrange(0, i as int).push(c));
        }
        if c == '"' {
            out.append("\\\"");
            proof {
                reveal_strlit("\\\"");
                assert(("\\\"")@ =~= escape_char(c));
            }
        } else if c == '\\' {
            out.append("\\\\");
            proof {
                reveal_strlit("\\\\");
                assert(("\\\\")@ =~= escape_char(c));
            }
        } else if c == '\n' {
            out.append("\\n");
            proof {
                reveal_strlit("\\n");
                assert(("\\n")@ =~= escape_char(c));
            }
        } else if c == '\r' {
            out.append("\\r");
            proof {
                reveal_strlit("\\r");
                assert(("\\r")@ =~= escape_char(c));
            }
        } else if c == '\t' {
            out.append("\\t");
            proof {
                reveal_strlit("\\t");
                assert(("\\t")@ =~= escape_char(c));
            }
        } else if (c as u32) < 32 {
            out.append("\\u00");
            let x: u32 = c as u32;
            let hi: u32 = x / 16;
            let lo: u32 = x % 16;
            let hc: char = ((48 + hi) as u8) as char;
            let lc: char = if lo < 10 {
                ((48 + lo) as u8) as char
            } else {
                ((87 + lo) as u8) as char
            };
            out.push(hc);
            out.push(lc);
            proof {
                reveal_strlit("\\u00");
                assert(hc == hex_digit(c as int / 16));
                assert(lc == hex_digit(c as int % 16));
                assert(("\\u00")@ + seq![hc] + seq![lc] =~= escape_char(c));
            }
        } else {
            out.push(c);
            proof {
                assert(seq![c] =~= escape_char(c));
            }
        }
        proof {
            assert(out@ =~= old(out)@ + escape_seq(s@.subrange(0, i + 1)));
        }
        i = i + 1;
    }
    proof {
        assert(s@.subrange(0, n as int) =~= s@);
    }
}

/// A character that stands for itself inside an encoded string.
pub open spec fn plain_char(c: char) -> bool {
    c != '"' && c != '\\' && (c as int) >= 32
}

pub open spec fn is_short_escape(e: char) -> bool {
    e == '"' || e == '\\' || e == 'n' || e == 'r' || e == 't'
}

/// The meaning of a two-character escape.
pub open spec fn short_escape(e: char) -> char
    recommends
        is_short_escape(e),
{
    if e == '"' {
        '"'
    } else if e == '\\' {
        '\\'
    } else if e == 'n' {
        '\n'
    } else if e == 'r' {
        '\r'
    } else {
        '\t'
    }
}

/// Whether a character value is one the encoder writes in hex form.
pub open spec fn hex_escaped(v: int) -> bool {
    0 <= v < 32 && v != 9 && v != 10 && v != 13
}

pub open spec fn scanned_cons(c: char, rest: Option<(Seq<char>, int)>) -> Option<(Seq<char>, int)> {
    match rest {
        Option::None => Option::None,
        Option::Some((m, j)) => Option::Some((seq![c] + m, j)),
    }
}

/// Scan an encoded string beginning at `i`, up to and including its closing
/// quote: the decoded characters and the position just past the quote.
/// Accepts exactly the escapes the encoder produces.
pub open spec fn scan_string(s: Seq<char>, i: int) -> Option<(Seq<char>, int)>
    decreases s.len() - i,
{
    if i < 0 || i >= s.len() {
        Option::None
    } else if s[i] == '"' {
        Option::Some((Seq::empty(), i + 1))
    } else if s[i] == '\\' {
        if i + 2 > s.len() {
            Option::None
        } else {
            let e = s[i + 1];
            if is_short_escape(e) {
                scanned_cons(short_escape(e), scan_string(s, i + 2))
            } else if e == 'u' {
                if i + 6 <= s.len() && s[i + 2] == '0' && s[i + 3] == '0' && is_hex_digit(s[i + 4])
                    && is_hex_digit(s[i + 5]) {
                    let v = hex_val(s[i + 4]) * 16 + hex_val(s[i + 5]);
                    if hex_escaped(v) {
                        scanned_cons(v as char, scan_string(s, i + 6))
                    } else {
                        Option::None
                    }
                } else {
                    Option::None
                }
            } else {
                Option::None
            }
        }
    } else if (s[i] as int) < 32 {
        Option::None
    } else {
        scanned_cons(s[i], scan_string(s, i + 1))
    }
}

/// Soundness of the scanner: what it accepts is exactly the escaped form of
/// what it decodes, followed by the closing quote.
pub proof fn lemma_scan_sound(s: Seq<char>, i: int)
    requires
        scan_string(s, i) is Some,
    ensures
        scan_string(s, i) matches Option::Some((m, j)) ==> i < j <= s.len() && s.subrange(i, j)
            == escape_seq(m) + seq!['"'],
    decreases s.len() - i,
{
    let c0 = s[i];
    if c0 == '"' {
        assert(s.subrange(i, i + 1) =~= escape_seq(Seq::<char>::empty()) + seq!['"']);
    } else if c0 == '\\' {
        let e = s[i + 1];
        if is_short_escape(e) {
            let rest = scan_string(s, i + 2);
            lemma_scan_sound(s, i + 2);
            let (m2, j) = rest->Some_0;
            let d = short_escape(e);
            let m = seq![d] + m2;
            assert(m.drop_first() =~= m2);
            assert(escape_seq(m) == escape_char(d) + escape_seq(m2));
            assert(escape_char(d) =~= seq!['\\', e]);
            assert(s.subrange(i, j) =~= escape_seq(m) + seq!['"']) by {
                assert(s.subrange(i + 2, j) == escape_seq(m2) + seq!['"']);
                assert(s.subrange(i, j) =~= s.subrange(i, i + 2) + s.subrange(i + 2, j));
                assert(s.subrange(i, i + 2) =~= seq![s[i], s[i + 1]]);
                assert(escape_char(d) + (escape_seq(m2) + seq!['"']) =~= (escape_char(d)
                    + escape_seq(m2)) + seq!['"']);
            }
        } else {
            let h1 = s[i + 4];
            let h2 = s[i + 5];
            let v = hex_val(h1) * 16 + hex_val(h2);
            let rest = scan_string(s, i + 6);
            lemma_scan_sound(s, i + 6);
            let (m2, j) = rest->Some_0;
            let d = v as char;
            let m = seq![d] + m2;
            assert(m.drop_first() =~= m2);
            assert(escape_seq(m) == escape_char(d) + escape_seq(m2));
            assert(d as int == v);
            assert(0 <= hex_val(h1) < 16 && 0 <= hex_val(h2) < 16);
            assert(v / 16 == hex_val(h1) && v % 16 == hex_val(h2)) by {
                vstd::arithmetic::div_mod::lemma_fundamental_div_mod_converse(
                    v,
                    16,
                    hex_val(h1),
                    hex_val(h2),
                );
            }
            assert(hex_digit(hex_val(h1)) == h1);
            assert(hex_digit(hex_val(h2)) == h2);
            assert(escape_char(d) =~= seq!['\\', 'u', '0', '0', h1, h2]);
            assert(s.subrange(i, j) =~= escape_seq(m) + seq!['"']) by {
                assert(s.subrange(i + 6, j) == escape_seq(m2) + seq!['"']);
                assert(s.subrange(i, j) =~= s.subrange(i, i + 6) + s.subrange(i + 6, j));
                assert(s.subrange(i, i + 6) =~= seq![s[i], s[i + 1], s[i + 2], s[i + 3], s[i + 4], s[i + 5]]);
                assert(escape_char(d) + (escape_seq(m2) + seq!['"']) =~= (escape_char(d)
                    + escape_seq(m2)) + seq!['"']);
            }
        }
    } else {
        let rest = scan_string(s, i + 1);
        lemma_scan_sound(s, i + 1);
        let (m2, j) = rest->Some_0;
        let m = seq![c0] + m2;
        assert(m.drop_first() =~= m2);
        assert(escape_seq(m) == escape_char(c0) + escape_seq(m2));
        assert(escape_char(c0) =~= seq![c0]);
        assert(s.subrange(i, j) =~= escape_seq(m) + seq!['"']) by {
            assert(s.subrange(i + 1, j) == escape_seq(m2) + seq!['"']);
            assert(s.subrange(i, j) =~= s.subrange(i, i + 1) + s.subrange(i + 1, j));
            assert(s.subrange(i, i + 1) =~= seq![s[i]]);
            assert(escape_char(c0) + (escape_seq(m2) + seq!['"']) =~= (escape_char(c0)
                + escape_seq(m2)) + seq!['"']);
        }
    }
}

/// Completeness of the scanner: the escaped form of any string, followed by
/// a closing quote, scans back to exactly that string.
pub proof fn lemma_scan_complete(s: Seq<char>, i: int, m: Seq<char>)
    requires
        0 <= i,
        i + escape_seq(m).len() + 1 <= s.len(),
        s.subrange(i, i + escape_seq(m).len() + 1) == escape_seq(m) + seq!['"'],
    ensures
        scan_string(s, i) == Option::Some((m, i + escape_seq(m).len() + 1)),
    decreases m.len(),
{
    let big = s.subrange(i, i + escape_seq(m).len() + 1);
    if m.len() == 0 {
        assert(escape_seq(m) =~= Seq::<char>::empty());
        assert(s[i] == '"') by {
            assert(big[0] == (escape_seq(m) + seq!['"'])[0]);
        }
        assert(scan_string(s, i) == Option::Some((Seq::<char>::empty(), i + 1)));
        assert(m =~= Seq::<char>::empty());
    } else {
        let c = m[0];
        let m2 = m.drop_first();
        assert(escape_seq(m) == escape_char(c) + escape_seq(m2));
        let el = escape_char(c).len();
        assert(escape_seq(m).len() == el + escape_seq(m2).len());
        let whole = escape_char(c) + (escape_seq(m2) + seq!['"']);
        assert(big =~= whole);
        assert forall|k: int| 0 <= k < el implies #[trigger] s[i + k] == escape_char(c)[k] by {
            assert(big[k] == s[i + k]);
            assert(whole[k] == escape_char(c)[k]);
        }
        let tail = s.subrange(i + el, i + el + escape_seq(m2).len() + 1);
        assert forall|k: int| 0 <= k < escape_seq(m2).len() + 1 implies #[trigger] tail[k]
            == (escape_seq(m2) + seq!['"'])[k] by {
            assert(tail[k] == s[i + el + k]);
            assert(big[el + k] == s[i + el + k]);
            assert(whole[el + k] == (escape_seq(m2) + seq!['"'])[k]);
        }
        assert(tail =~= escape_seq(m2) + seq!['"']);
        lemma_scan_complete(s, i + el, m2);
        assert(s[i] == escape_char(c)[0]) by {
            assert(big[0] == s[i]);
            assert(whole[0] == escape_char(c)[0]);
        }
        assert(el >= 2 ==> s[i + 1] == escape_char(c)[1]);
        if c == '"' || c == '\\' || c == '\n' || c == '\r' || c == '\t' {
            assert(escape_char(c)[0] == '\\' && is_short_escape(escape_char(c)[1])
                && short_escape(escape_char(c)[1]) == c);
            assert(scan_string(s, i) == scanned_cons(c, scan_string(s, i + 2)));
        } else if (c as int) < 32 {
            let ci = c as int;
            let h1 = hex_digit(ci / 16);
            let h2 = hex_digit(ci % 16);
            assert(escape_char(c) =~= seq!['\\', 'u', '0', '0', h1, h2]);
            assert(s[i] == '\\' && s[i + 1] == 'u' && s[i + 2] == '0' && s[i + 3] == '0');
            crate::text::lemma_char_nonneg(c);
            assert(0 <= ci);
            assert(ci / 16 < 16);
            assert(0 <= ci / 16);
            assert(0 <= ci % 16 < 16);
            assert(is_hex_digit(h1) && hex_val(h1) == ci / 16);
            assert(is_hex_digit(h2) && hex_val(h2) == ci % 16);
            assert(!is_short_escape('u'));
            assert(hex_val(s[i + 4]) * 16 + hex_val(s[i + 5]) == ci);
            assert(hex_escaped(ci));
            assert((ci as char) == c);
            assert(scan_string(s, i) == scanned_cons(c, scan_string(s, i + 6)));
        } else {
            assert(escape_char(c) =~= seq![c]);
            assert(s[i] == c && plain_char(c));
            assert(scan_string(s, i) == scanned_cons(c, scan_string(s, i + 1)));
        }
        assert(seq![c] + m2 =~= m);
    }
}

fn ctl_char(c: char) -> (r: bool)
    ensures
        r == ((c as int) < 32),
{
    let u: u32 = c as u32;
    proof {
        assert(u as int == c as int);
    }
    u < 32
}

fn hex_digit_char(c: char) -> (r: bool)
    ensures
        r == is_hex_digit(c),
{
    ('0' <= c && c <= '9') || ('a' <= c && c <= 'f')
}

fn hex_val_char(c: char) -> (r: u32)
    requires
        is_hex_digit(c),
    ensures
        r as int == hex_val(c),
        r < 16,
{
    if c <= '9' {
        (c as u32) - 48
    } else {
        (c as u32) - 87
    }
}

/// Read an encoded string beginning at `start`, up to and including its
/// closing quote, as `scan_string` describes.
fn parse_escaped(t: &Vec<char>, start: usize) -> (r: Option<(String, usize)>)
    requires
        start <= t@.len(),
    ensures
        r matches Option::Some((m, j)) ==> start < j <= t@.len() && scan_string(
            t@,
            start as int,
        ) == Option::Some((m@, j as int)),
        r is None ==> scan_string(t@, start as int) is None,
{
    let n = t.len();
    let mut i: usize = start;
    let mut out = String::new();
    loop
        invariant
            start <= i <= n,
            n == t@.len(),
            (match scan_string(t@, i as int) {
                Option::Some((m2, j)) => scan_string(t@, start as int) == Option::Some(
                    (out@ + m2, j),
                ),
                Option::None => scan_string(t@, start as int) is None,
            }),
        decreases n - i,
    {
        if i >= n {
            return None;
        }
        let c = t[i];
        if c == '"' {
            proof {
                assert(scan_string(t@, i as int) == Option::Some(
                    (Seq::<char>::empty(), i + 1),
                ));
                assert(out@ + Seq::<char>::empty() =~= out@);
                lemma_scan_sound(t@, start as int);
            }
            return Some((out, i + 1));
        } else if c == '\\' {
            if i + 1 >= n {
                return None;
            }
            let e = t[i + 1];
            if e == '"' || e == '\\' || e == 'n' || e == 'r' || e == 't' {
                let d: char = if e == '"' {
                    '"'
                } else if e == '\\' {
                    '\\'
                } else if e == 'n' {
                    '\n'
                } else if e == 'r' {
                    '\r'
                } else {
                    '\t'
                };
                proof {
                    assert(d == short_escape(e));
                    assert(scan_string(t@, i as int) == scanned_cons(
                        d,
                        scan_string(t@, i + 2),
                    ));
                    if scan_string(t@, i + 2) is Some {
                        let (m3, j3) = scan_string(t@, i + 2)->Some_0;
                        assert(out@.push(d) + m3 =~= out@ + (seq![d] + m3));
                    }
                }
                out.push(d);
                i = i + 2;
            } else if e == 'u' {
                if n - i < 6 {
                    return None;
                }
                let c2 = t[i + 2];
                let c3 = t[i + 3];
                if c2 != '0' || c3 != '0' {
                    return None;
                }
                let h1 = t[i + 4];
                let h2 = t[i + 5];
                if !hex_digit_char(h1) || !hex_digit_char(h2) {
                    return None;
                }
                let v: u32 = hex_val_char(h1) * 16 + hex_val_char(h2);
                if v < 32 && v != 9 && v != 10 && v != 13 {
                    let d: char = (v as u8) as char;
                    proof {
                        assert(d as int == v as int);
                        assert(scan_string(t@, i as int) == scanned_cons(
                            d,
                            scan_string(t@, i + 6),
                        ));
                        if scan_string(t@, i + 6) is Some {
                            let (m3, j3) = scan_string(t@, i + 6)->Some_0;
                            assert(out@.push(d) + m3 =~= out@ + (seq![d] + m3));
                        }
                    }
                    out.push(d);
                    i = i + 6;
                } else {
                    return None;
                }
            } else {
                return None;
            }
        } else if ctl_char(c) {
            proof {
                assert(scan_string(t@, i as int) is None);
            }
            return None;
        } else {
            proof {
                assert(scan_string(t@, i as int) == scanned_cons(c, scan_string(t@, i + 1)));
                if scan_string(t@, i + 1) is Some {
                    let (m3, j3) = scan_string(t@, i + 1)->Some_0;
                    assert(out@.push(c) + m3 =~= out@ + (seq![c] + m3));
                }
            }
            out.push(c);
            i = i + 1;
        }
    }
}

/// The canonical line for a request (without the line terminator).
pub open spec fn encode_command_spec(c: Command) -> Seq<char> {
    match c {
        Command::Pause => "{\"type\":\"Pause\"}"@,
        Command::Resume => "{\"type\":\"Resume\"}"@,
        Command::Stop => "{\"type\":\"Stop\"}"@,
        Command::Status => "{\"type\":\"Status\"}"@,
        Command::Ring => "{\"type\":\"Ring\"}"@,
        Command::Reload => "{\"type\":\"Reload\"}"@,
    }
}

/// Encode a request as its wire line (without the line terminator).
pub fn encode_command(c: &Command) -> (s: String)
    ensures
        s@ == encode_command_spec(*c),
{
    match c {
        Command::Pause => String::from_str("{\"type\":\"Pause\"}"),
        Command::Resume => String::from_str("{\"type\":\"Resume\"}"),
        Command::Stop => String::from_str("{\"type\":\"Stop\"}"),
        Command::Status => String::from_str("{\"type\":\"Status\"}"),
        Command::Ring => String::from_str("{\"type\":\"Ring\"}"),
        Command::Reload => String::from_str("{\"type\":\"Reload\"}"),
    }
}

/// The optional seconds-until-next-ring field: a number, or `null`.
pub open spec fn opt_secs_text(o: Option<u64>) -> Seq<char> {
    match o {
        Option::None => "null"@,
        Option::Some(v) => dec_str(v as int),
    }
}

/// The canonical line for a response (without the line terminator).
pub open spec fn encode_response_spec(r: Response) -> Seq<char> {
    match r {
        Response::Okay => "{\"type\":\"Ok\"}"@,
        Response::Error(m) => "{\"type\":\"Error\",\"data\":\""@ + escape_seq(m@) + "\"}"@,
        Response::Status(si) => "{\"type\":\"Status\",\"data\":{\"state\":\""@ + escape_seq(
            si.state@,
        ) + "\",\"next_bell_secs\":"@ + opt_secs_text(si.next_bell_secs) + ",\"interval_mins\":"@
            + dec_str(si.interval_mins as int) + ",\"total_bells_session\":"@ + dec_str(
            si.total_bells_session as int,
        ) + "}}"@,
    }
}

/// Encode a response as its wire line (without the line terminator).
pub fn encode_response(r: &Response) -> (s: String)
    ensures
        s@ == encode_response_spec(*r),
{
    match r {
        Response::Okay => String::from_str("{\"type\":\"Ok\"}"),
        Response::Error(m) => {
            let mut out = String::from_str("{\"type\":\"Error\",\"data\":\"");
            append_escaped(&mut out, m.as_str());
            out.append("\"}");
            proof {
                assert(out@ =~= encode_response_spec(*r));
            }
            out
        },
        Response::Status(si) => {
            let mut out = String::from_str("{\"type\":\"Status\",\"data\":{\"state\":\"");
            append_escaped(&mut out, si.state.as_str());
            out.append("\",\"next_bell_secs\":");
            match si.next_bell_secs {
                Some(v) => {
                    let d = u64_to_string(v);
                    out.append(d.as_str());
                },
                None => {
                    out.append("null");
                },
            }
            out.append(",\"interval_mins\":");
            let d1 = u64_to_string(si.interval_mins);
            out.append(d1.as_str());
            out.append(",\"total_bells_session\":");
            let d2 = u64_to_string(si.total_bells_session);
            out.append(d2.as_str());
            out.append("}}");
            proof {
                assert(out@ =~= encode_response_spec(*r));
            }
            out
        },
    }
}

/// The message of the Error response given when the orchestrator's command
/// channel has no receiver left.
pub open spec fn daemon_not_responding_msg() -> Seq<char> {
    "daemon not responding"@
}

/// The response a connection handler gives when the orchestrator is
/// unreachable.
pub fn daemon_not_responding() -> (r: Response)
    ensures
        r matches Response::Error(m) && m@ == daemon_not_responding_msg(),
{
    Response::Error(String::from_str("daemon not responding"))
}

/// Decode a request line: exactly the canonical encoding of one command,
/// with surrounding whitespace tolerated.
pub fn parse_command(line: &str) -> (r: Option<Command>)
    ensures
        r matches Option::Some(c) ==> trim(line@) == encode_command_spec(c),
        r is None ==> forall|c: Command| trim(line@) != encode_command_spec(c),
{
    let t = trimmed_chars(line);
    if chars_eq_lit(&t, "{\"type\":\"Pause\"}") {
        Some(Command::Pause)
    } else if chars_eq_lit(&t, "{\"type\":\"Resume\"}") {
        Some(Command::Resume)
    } else if chars_eq_lit(&t, "{\"type\":\"Stop\"}") {
        Some(Command::Stop)
    } else if chars_eq_lit(&t, "{\"type\":\"Status\"}") {
        Some(Command::Status)
    } else if chars_eq_lit(&t, "{\"type\":\"Ring\"}") {
        Some(Command::Ring)
    } else if chars_eq_lit(&t, "{\"type\":\"Reload\"}") {
        Some(Command::Reload)
    } else {
        proof {
            assert forall|c: Command| trim(line@) != encode_command_spec(c) by {
                match c {
                    Command::Pause => {},
                    Command::Resume => {},
                    Command::Stop => {},
                    Command::Status => {},
                    Command::Ring => {},
                    Command::Reload => {},
                }
            }
        }
        None
    }
}

/// The message of the Error response given to a request line that decodes to
/// no command.
pub open spec fn invalid_command_msg() -> Seq<char> {
    "invalid command: unrecognized request"@
}

/// Decode one request line on the daemon side. A malformed line yields the
/// message for the Error response, and is never forwarded to the
/// orchestrator.
pub fn decode_command_line(line: &str) -> (r: Result<Command, String>)
    ensures
        r matches Result::Ok(c) ==> trim(line@) == encode_command_spec(c),
        r matches Result::Err(m) ==> m@ == invalid_command_msg() && (forall|c: Command|
            trim(line@) != encode_command_spec(c)),
{
    match parse_command(line) {
        Some(c) => Ok(c),
        None => Err(String::from_str("invalid command: unrecognized request")),
    }
}

/// Where every piece of an encoded Error response sits.
proof fn lemma_error_positions(s: Seq<char>, m: String)
    requires
        s == encode_response_spec(Response::Error(m)),
    ensures
        ({
            let i0 = ("{\"type\":\"Error\",\"data\":\"")@.len() as int;
            let ell = escape_seq(m@).len() as int;
            &&& s.len() == i0 + ell + 2
            &&& lit_at(s, 0, ("{\"type\":\"Error\",\"data\":\"")@)
            &&& scan_string(s, i0) == Option::Some((m@, i0 + ell + 1))
            &&& s[s.len() - 1] == '}'
        }),
{
    let pre = ("{\"type\":\"Error\",\"data\":\"")@;
    let i0 = pre.len() as int;
    let ell = escape_seq(m@).len() as int;
    reveal_strlit("\"}");
    assert(("\"}")@ =~= seq!['"', '}']);
    let whole = pre + escape_seq(m@) + ("\"}")@;
    assert(s.len() == i0 + ell + 2);
    assert(s.subrange(0, i0 as int) =~= pre);
    assert(s.subrange(i0 as int, i0 + ell + 1) =~= escape_seq(m@) + seq!['"']) by {
        assert(forall|k: int|
            0 <= k < ell + 1 ==> #[trigger] s[i0 + k] == (escape_seq(m@) + seq!['"'])[k]);
    }
    lemma_scan_complete(s, i0 as int, m@);
}

/// Where every piece of an encoded Status response sits.
proof fn lemma_status_positions(s: Seq<char>, si: StatusInfo)
    requires
        s == encode_response_spec(Response::Status(si)),
    ensures
        ({
            let p0 = ("{\"type\":\"Status\",\"data\":{\"state\":\"")@.len() as int;
            let p1 = p0 + escape_seq(si.state@).len() + 1;
            let p2 = p1 + (",\"next_bell_secs\":")@.len();
            let p3 = p2 + opt_secs_text(si.next_bell_secs).len();
            let p4 = p3 + (",\"interval_mins\":")@.len();
            let p5 = p4 + dec_str(si.interval_mins as int).len();
            let p6 = p5 + (",\"total_bells_session\":")@.len();
            let p7 = p6 + dec_str(si.total_bells_session as int).len();
            &&& s.len() == p7 + 2
            &&& lit_at(s, 0, ("{\"type\":\"Status\",\"data\":{\"state\":\"")@)
            &&& scan_string(s, p0) == Option::Some((si.state@, p1))
            &&& lit_at(s, p1, (",\"next_bell_secs\":")@)
            &&& (si.next_bell_secs is None ==> lit_at(s, p2, ("null")@))
            &&& (si.next_bell_secs matches Option::Some(v) ==> num_token(s, p2)
                == Option::Some((v, p3)) && !lit_at(s, p2, ("null")@))
            &&& lit_at(s, p3, (",\"interval_mins\":")@)
            &&& num_token(s, p4) == Option::Some((si.interval_mins, p5))
            &&& lit_at(s, p5, (",\"total_bells_session\":")@)
            &&& num_token(s, p6) == Option::Some((si.total_bells_session, p7))
            &&& lit_at(s, p7, ("}}")@)
        }),
{
    let pre = ("{\"type\":\"Status\",\"data\":{\"state\":\"")@;
    let d2 = (",\"next_bell_secs\":")@;
    let e2 = (",\"interval_mins\":")@;
    let f2 = (",\"total_bells_session\":")@;
    let nb = opt_secs_text(si.next_bell_secs);
    let n1 = dec_str(si.interval_mins as int);
    let n2 = dec_str(si.total_bells_session as int);
    let p0 = pre.len() as int;
    let p1 = p0 + escape_seq(si.state@).len() + 1;
    let p2 = p1 + d2.len();
    let p3 = p2 + nb.len();
    let p4 = p3 + e2.len();
    let p5 = p4 + n1.len();
    let p6 = p5 + f2.len();
    let p7 = p6 + n2.len();
    reveal_strlit("\",\"next_bell_secs\":");
    reveal_strlit(",\"next_bell_secs\":");
    reveal_strlit(",\"interval_mins\":");
    reveal_strlit(",\"total_bells_session\":");
    reveal_strlit("}}");
    reveal_strlit("null");
    assert(("\",\"next_bell_secs\":")@ =~= seq!['"'] + d2);
    assert(("}}")@ =~= seq!['}', '}']);
    assert(s.len() == p7 + 2);
    lemma_dec_str_wf(si.interval_mins as int);
    lemma_dec_str_wf(si.total_bells_session as int);
    assert(s.subrange(0, p0) =~= pre);
    assert(s.subrange(p0, p1) =~= escape_seq(si.state@) + seq!['"']) by {
        assert(forall|k: int|
            0 <= k < p1 - p0 ==> #[trigger] s[p0 + k] == (escape_seq(si.state@) + seq!['"'])[k]);
    }
    lemma_scan_complete(s, p0, si.state@);
    assert(s.subrange(p1, p2) =~= d2) by {
        assert(forall|k: int| 0 <= k < d2.len() ==> #[trigger] s[p1 + k] == d2[k]);
    }
    assert(s.subrange(p2, p3) =~= nb) by {
        assert(forall|k: int| 0 <= k < nb.len() ==> #[trigger] s[p2 + k] == nb[k]);
    }
    assert(s.subrange(p3, p4) =~= e2) by {
        assert(forall|k: int| 0 <= k < e2.len() ==> #[trigger] s[p3 + k] == e2[k]);
    }
    assert(s.subrange(p4, p5) =~= n1) by {
        assert(forall|k: int| 0 <= k < n1.len() ==> #[trigger] s[p4 + k] == n1[k]);
    }
    assert(s.subrange(p5, p6) =~= f2) by {
        assert(forall|k: int| 0 <= k < f2.len() ==> #[trigger] s[p5 + k] == f2[k]);
    }
    assert(s.subrange(p6, p7) =~= n2) by {
        assert(forall|k: int| 0 <= k < n2.len() ==> #[trigger] s[p6 + k] == n2[k]);
    }
    assert(s.subrange(p7, p7 + 2) =~= seq!['}', '}']) by {
        assert(forall|k: int| 0 <= k < 2 ==> #[trigger] s[p7 + k] == (seq!['}', '}'])[k]);
    }
    assert(s[p5] == f2[0] && f2[0] == ',');
    assert(s[p7] == '}');
    assert(forall|k: int| p4 <= k < p5 ==> s[k] == n1[k - p4]);
    lemma_num_token_complete(s, p4, si.interval_mins);
    assert(forall|k: int| p6 <= k < p7 ==> s[k] == n2[k - p6]);
    lemma_num_token_complete(s, p6, si.total_bells_session);
    match si.next_bell_secs {
        Option::Some(v) => {
            lemma_dec_str_wf(v as int);
            assert(s[p3] == e2[0] && e2[0] == ',');
            assert(forall|k: int| p2 <= k < p3 ==> s[k] == dec_str(v as int)[k - p2]);
            lemma_num_token_complete(s, p2, v);
            assert(s[p2] == dec_str(v as int)[0]);
            assert(is_dec_digit(s[p2]));
            assert(!lit_at(s, p2, ("null")@)) by {
                assert(("null")@[0] == 'n');
            }
        },
        Option::None => {
            assert(s.subrange(p2, p3) == ("null")@);
        },
    }
}


/// Assemble: a sequence split into the canonical pieces of a Status response
/// is that response's encoding.
proof fn lemma_status_assemble(
    s: Seq<char>,
    si: StatusInfo,
    p0: int,
    p1: int,
    p2: int,
    p3: int,
    p4: int,
    p5: int,
    p6: int,
    p7: int,
)
    requires
        0 <= p0 <= p1 <= p2 <= p3 <= p4 <= p5 <= p6 <= p7 <= s.len(),
        s.len() == p7 + 2,
        s.subrange(0, p0) == ("{\"type\":\"Status\",\"data\":{\"state\":\"")@,
        s.subrange(p0, p1) == escape_seq(si.state@) + seq!['"'],
        s.subrange(p1, p2) == (",\"next_bell_secs\":")@,
        s.subrange(p2, p3) == opt_secs_text(si.next_bell_secs),
        s.subrange(p3, p4) == (",\"interval_mins\":")@,
        s.subrange(p4, p5) == dec_str(si.interval_mins as int),
        s.subrange(p5, p6) == (",\"total_bells_session\":")@,
        s.subrange(p6, p7) == dec_str(si.total_bells_session as int),
        s.subrange(p7, s.len() as int) == ("}}")@,
    ensures
        s == encode_response_spec(Response::Status(si)),
{
    reveal_strlit("\",\"next_bell_secs\":");
    reveal_strlit(",\"next_bell_secs\":");
    assert(("\",\"next_bell_secs\":")@ =~= seq!['"'] + (",\"next_bell_secs\":")@);
    assert(s =~= s.subrange(0, p0) + s.subrange(p0, p1) + s.subrange(p1, p2) + s.subrange(
        p2,
        p3,
    ) + s.subrange(p3, p4) + s.subrange(p4, p5) + s.subrange(p5, p6) + s.subrange(p6, p7)
        + s.subrange(p7, s.len() as int));
    assert(s =~= encode_response_spec(Response::Status(si)));
}

/// Try to read the whole vector as an encoded Error response.
#[verifier::rlimit(100)]
fn parse_error_rest(t: &Vec<char>) -> (r: Option<Response>)
    ensures
        r matches Option::Some(resp) ==> t@ == encode_response_spec(resp),
        r is None ==> forall|m: String| t@ != encode_response_spec(Response::Error(m)),
{
    let ghost s = t@;
    let n = t.len();
    match match_lit(t, 0, "{\"type\":\"Error\",\"data\":\"") {
        Some(i0) => {
            match parse_escaped(t, i0) {
                Some((msg, j)) => {
                    if j < n && n - j == 1 && t[j] == '}' {
                        proof {
                            lemma_scan_sound(s, i0 as int);
                            reveal_strlit("\"}");
                            assert(("\"}")@ =~= seq!['"', '}']);
                            assert(s.subrange(j as int, n as int) =~= seq!['}']);
                            assert(s =~= s.subrange(0, i0 as int) + s.subrange(
                                i0 as int,
                                j as int,
                            ) + s.subrange(j as int, n as int));
                            assert(s =~= encode_response_spec(Response::Error(msg)));
                        }
                        Some(Response::Error(msg))
                    } else {
                        proof {
                            assert forall|m: String|
                                s != encode_response_spec(Response::Error(m)) by {
                                if s == encode_response_spec(Response::Error(m)) {
                                    lemma_error_positions(s, m);
                                }
                            }
                        }
                        None
                    }
                },
                None => {
                    proof {
                        assert forall|m: String|
                            s != encode_response_spec(Response::Error(m)) by {
                            if s == encode_response_spec(Response::Error(m)) {
                                lemma_error_positions(s, m);
                            }
                        }
                    }
                    None
                },
            }
        },
        None => {
            proof {
                assert forall|m: String| s != encode_response_spec(Response::Error(m)) by {
                    if s == encode_response_spec(Response::Error(m)) {
                        lemma_error_positions(s, m);
                    }
                }
            }
            None
        },
    }
}

/// The shape of the opening of an encoded Status response: the fixed prefix,
/// the escaped state label, and the optional next-ring field, ending at `p3`.
spec fn status_head_at(s: Seq<char>, st: Seq<char>, nb: Option<u64>, p3: int) -> bool {
    let p0 = ("{\"type\":\"Status\",\"data\":{\"state\":\"")@.len() as int;
    let p1 = p0 + escape_seq(st).len() + 1;
    let p2 = p1 + (",\"next_bell_secs\":")@.len() as int;
    &&& lit_at(s, 0, ("{\"type\":\"Status\",\"data\":{\"state\":\"")@)
    &&& scan_string(s, p0) == Option::Some((st, p1))
    &&& lit_at(s, p1, (",\"next_bell_secs\":")@)
    &&& p3 == p2 + opt_secs_text(nb).len()
    &&& p3 <= s.len()
    &&& (nb is None ==> lit_at(s, p2, ("null")@))
    &&& (nb matches Option::Some(v) ==> num_token(s, p2) == Option::Some((v, p3))
        && is_dec_digit(s[p2]))
}

/// Read the opening of an encoded Status response.
#[verifier::rlimit(100)]
fn parse_status_head(t: &Vec<char>) -> (r: Option<(String, Option<u64>, usize)>)
    ensures
        r matches Option::Some((st, nb, p3)) ==> status_head_at(t@, st@, nb, p3 as int),
        r is None ==> !(exists|si: StatusInfo| t@ == encode_response_spec(
            Response::Status(si),
        )),
{
    let ghost s = t@;
    let n = t.len();
    proof {
        if exists|si: StatusInfo| s == encode_response_spec(Response::Status(si)) {
            let si0 = choose|si: StatusInfo| s == encode_response_spec(Response::Status(si));
            lemma_status_positions(s, si0);
        }
    }
    let p0 = match match_lit(t, 0, "{\"type\":\"Status\",\"data\":{\"state\":\"") {
        Some(p) => p,
        None => {
            proof {
                assert(!(exists|si: StatusInfo|
                    s == encode_response_spec(Response::Status(si))));
            }
            return None;
        },
    };
    let scanned = parse_escaped(t, p0);
    let (state_s, p1) = match scanned {
        Some(x) => x,
        None => {
            proof {
                assert(!(exists|si: StatusInfo|
                    s == encode_response_spec(Response::Status(si))));
            }
            return None;
        },
    };
    proof {
        lemma_scan_sound(s, p0 as int);
    }
    let p2 = match match_lit(t, p1, ",\"next_bell_secs\":") {
        Some(p) => p,
        None => {
            proof {
                assert(!(exists|si: StatusInfo|
                    s == encode_response_spec(Response::Status(si))));
            }
            return None;
        },
    };
    match match_lit(t, p2, "null") {
        Some(q) => {
            proof {
                assert(s.subrange(p0 as int, p1 as int) == escape_seq(state_s@) + seq!['"']);
                assert(s.subrange(p0 as int, p1 as int).len() == p1 - p0);
                assert(p1 as int == p0 + escape_seq(state_s@).len() + 1);
                assert(lit_at(s, p2 as int, ("null")@));
                assert(q as int == p2 + opt_secs_text(None).len());
                assert(status_head_at(s, state_s@, None, q as int));
            }
            return Some((state_s, None, q));
        },
        None => {},
    }
    match parse_u64(t, p2) {
        Some((v, q)) => {
            proof {
                lemma_num_token_canonical(s, p2 as int);
                lemma_dec_str_wf(v as int);
                assert(s.subrange(p0 as int, p1 as int) == escape_seq(state_s@) + seq!['"']);
                assert(s.subrange(p0 as int, p1 as int).len() == p1 - p0);
                assert(p1 as int == p0 + escape_seq(state_s@).len() + 1);
                assert(s.subrange(p2 as int, q as int) == dec_str(v as int));
                assert(s[p2 as int] == dec_str(v as int)[0]);
                assert(q as int == p2 + opt_secs_text(Some(v)).len());
                assert(status_head_at(s, state_s@, Some(v), q as int));
            }
            Some((state_s, Some(v), q))
        },
        None => {
            proof {
                assert(!(exists|si: StatusInfo|
                    s == encode_response_spec(Response::Status(si))));
            }
            None
        },
    }
}

/// The shape of the remainder of an encoded Status response after position
/// `p3`: the two numeric fields and the closing braces.
spec fn status_tail_shape(s: Seq<char>, p3: int) -> bool {
    let p4 = p3 + (",\"interval_mins\":")@.len() as int;
    &&& lit_at(s, p3, (",\"interval_mins\":")@)
    &&& num_token(s, p4) is Some
    &&& (num_token(s, p4) matches Option::Some((v1, p5)) ==> lit_at(
        s,
        p5,
        (",\"total_bells_session\":")@,
    ) && {
        let p6 = p5 + (",\"total_bells_session\":")@.len() as int;
        &&& num_token(s, p6) is Some
        &&& (num_token(s, p6) matches Option::Some((v2, p7)) ==> lit_at(s, p7, ("}}")@)
            && s.len() == p7 + 2)
    })
}

/// If some Status response encodes to `s` and `s` opens as
/// `status_head_at` says, then the remainder has the canonical shape.
#[verifier::rlimit(100)]
proof fn lemma_status_link(s: Seq<char>, st: Seq<char>, nb: Option<u64>, p3: int)
    requires
        status_head_at(s, st, nb, p3),
        exists|si: StatusInfo| s == encode_response_spec(Response::Status(si)),
    ensures
        status_tail_shape(s, p3),
{
    let si0 = choose|si: StatusInfo| s == encode_response_spec(Response::Status(si));
    lemma_status_positions(s, si0);
    let p0c = ("{\"type\":\"Status\",\"data\":{\"state\":\"")@.len() as int;
    let p1c = p0c + escape_seq(si0.state@).len() + 1;
    let p2c = p1c + (",\"next_bell_secs\":")@.len() as int;
    let p3c = p2c + opt_secs_text(si0.next_bell_secs).len();
    assert(st == si0.state@);
    reveal_strlit("null");
    match si0.next_bell_secs {
        Option::Some(v) => {
            lemma_num_token_canonical(s, p2c);
            lemma_dec_str_wf(v as int);
            assert(s[p2c] == dec_str(v as int)[0]);
            assert(is_dec_digit(s[p2c]));
            if nb is None {
                assert(s[p2c] == ("null")@[0]);
                assert(false);
            }
        },
        Option::None => {
            if nb is Some {
                assert(s[p2c] == ("null")@[0]);
                assert(is_dec_digit(s[p2c]));
                assert(false);
            }
        },
    }
    assert(nb == si0.next_bell_secs);
    assert(p3 == p3c);
}

/// Build the Status response once every piece of the line has been read,
/// and show the line is exactly its encoding.
#[verifier::rlimit(100)]
fn build_status(
    t: &Vec<char>,
    state_s: String,
    nb: Option<u64>,
    p3: usize,
    p5: usize,
    p7: usize,
    v1: u64,
    v2: u64,
) -> (r: Response)
    requires
        status_head_at(t@, state_s@, nb, p3 as int),
        lit_at(t@, p3 as int, (",\"interval_mins\":")@),
        num_token(t@, p3 + (",\"interval_mins\":")@.len() as int) == Option::Some(
            (v1, p5 as int),
        ),
        lit_at(t@, p5 as int, (",\"total_bells_session\":")@),
        num_token(t@, p5 + (",\"total_bells_session\":")@.len() as int) == Option::Some(
            (v2, p7 as int),
        ),
        lit_at(t@, p7 as int, ("}}")@),
        t@.len() == p7 + 2,
    ensures
        t@ == encode_response_spec(r),
        r is Status,
{
    let ghost s = t@;
    let si = StatusInfo {
        state: state_s,
        next_bell_secs: nb,
        interval_mins: v1,
        total_bells_session: v2,
    };
    let ghost p4 = p3 + (",\"interval_mins\":")@.len() as int;
    proof {
        lemma_scan_sound(s, ("{\"type\":\"Status\",\"data\":{\"state\":\"")@.len() as int);
        lemma_num_token_canonical(s, p4);
        lemma_num_token_canonical(s, p5 + (",\"total_bells_session\":")@.len() as int);
        if nb is Some {
            lemma_num_token_canonical(s, p3 - opt_secs_text(nb).len());
        }
        reveal_strlit("null");
        reveal_strlit("}}");
        lemma_status_assemble(
            s,
            si,
            ("{\"type\":\"Status\",\"data\":{\"state\":\"")@.len() as int,
            p3 - opt_secs_text(nb).len() - (",\"next_bell_secs\":")@.len(),
            p3 - opt_secs_text(nb).len(),
            p3 as int,
            p4,
            p5 as int,
            p5 + (",\"total_bells_session\":")@.len() as int,
            p7 as int,
        );
    }
    Response::Status(si)
}

/// The shape of an encoded Status response through its interval field.
spec fn status_mid_at(
    s: Seq<char>,
    st: Seq<char>,
    nb: Option<u64>,
    p3: int,
    v1: u64,
    p5: int,
) -> bool {
    &&& status_head_at(s, st, nb, p3)
    &&& lit_at(s, p3, (",\"interval_mins\":")@)
    &&& num_token(s, p3 + (",\"interval_mins\":")@.len() as int) == Option::Some((v1, p5))
}

/// Read the final braces of an encoded Status response and build it.
#[verifier::rlimit(100)]
fn parse_status_finish(
    t: &Vec<char>,
    state_s: String,
    nb: Option<u64>,
    p3: usize,
    v1: u64,
    p5: usize,
    v2: u64,
    p7: usize,
) -> (r: Option<Response>)
    requires
        p3 <= t@.len(),
        p7 <= t@.len(),
        status_mid_at(t@, state_s@, nb, p3 as int, v1, p5 as int),
        lit_at(t@, p5 as int, (",\"total_bells_session\":")@),
        num_token(t@, p5 + (",\"total_bells_session\":")@.len() as int) == Option::Some(
            (v2, p7 as int),
        ),
    ensures
        r matches Option::Some(resp) ==> t@ == encode_response_spec(resp),
        r is None ==> !(exists|si: StatusInfo| t@ == encode_response_spec(
            Response::Status(si),
        )),
{
    let ghost s = t@;
    let n = t.len();
    proof {
        if exists|si: StatusInfo| s == encode_response_spec(Response::Status(si)) {
            lemma_status_link(s, state_s@, nb, p3 as int);
        }
    }
    let p8 = match match_lit(t, p7, "}}") {
        Some(p) => p,
        None => {
            proof {
                if exists|si: StatusInfo| s == encode_response_spec(Response::Status(si)) {
                    assert(lit_at(s, p7 as int, ("}}")@));
                }
            }
            return None;
        },
    };
    if p8 != n {
        proof {
            reveal_strlit("}}");
            if exists|si: StatusInfo| s == encode_response_spec(Response::Status(si)) {
                assert(s.len() == p7 + 2);
                assert(p8 == n);
            }
        }
        return None;
    }
    proof {
        reveal_strlit("}}");
    }
    Some(build_status(t, state_s, nb, p3, p5, p7, v1, v2))
}

/// Read the closing part of an encoded Status response, after the interval
/// field.
#[verifier::rlimit(100)]
fn parse_status_close(
    t: &Vec<char>,
    state_s: String,
    nb: Option<u64>,
    p3: usize,
    v1: u64,
    p5: usize,
) -> (r: Option<Response>)
    requires
        p3 <= t@.len(),
        p5 <= t@.len(),
        status_mid_at(t@, state_s@, nb, p3 as int, v1, p5 as int),
    ensures
        r matches Option::Some(resp) ==> t@ == encode_response_spec(resp),
        r is None ==> !(exists|si: StatusInfo| t@ == encode_response_spec(
            Response::Status(si),
        )),
{
    let ghost s = t@;
    let n = t.len();
    proof {
        if exists|si: StatusInfo| s == encode_response_spec(Response::Status(si)) {
            lemma_status_link(s, state_s@, nb, p3 as int);
        }
    }
    let p6 = match match_lit(t, p5, ",\"total_bells_session\":") {
        Some(p) => p,
        None => {
            return None;
        },
    };
    let (v2, p7) = match parse_u64(t, p6) {
        Some(x) => x,
        None => {
            return None;
        },
    };
    parse_status_finish(t, state_s, nb, p3, v1, p5, v2, p7)
}

/// Read the rest of an encoded Status response, after its opening.
#[verifier::rlimit(100)]
fn parse_status_tail(t: &Vec<char>, state_s: String, nb: Option<u64>, p3: usize) -> (r: Option<
    Response,
>)
    requires
        p3 <= t@.len(),
        status_head_at(t@, state_s@, nb, p3 as int),
    ensures
        r matches Option::Some(resp) ==> t@ == encode_response_spec(resp),
        r is None ==> !(exists|si: StatusInfo| t@ == encode_response_spec(
            Response::Status(si),
        )),
{
    let ghost s = t@;
    let n = t.len();
    proof {
        if exists|si: StatusInfo| s == encode_response_spec(Response::Status(si)) {
            lemma_status_link(s, state_s@, nb, p3 as int);
        }
    }
    let p4 = match match_lit(t, p3, ",\"interval_mins\":") {
        Some(p) => p,
        None => {
            return None;
        },
    };
    let (v1, p5) = match parse_u64(t, p4) {
        Some(x) => x,
        None => {
            return None;
        },
    };
    parse_status_close(t, state_s, nb, p3, v1, p5)
}

/// Try to read the whole vector as an encoded Status response.
fn parse_status_rest(t: &Vec<char>) -> (r: Option<Response>)
    ensures
        r matches Option::Some(resp) ==> t@ == encode_response_spec(resp),
        r is None ==> !(exists|si: StatusInfo| t@ == encode_response_spec(
            Response::Status(si),
        )),
{
    match parse_status_head(t) {
        Some((state_s, nb, p3)) => parse_status_tail(t, state_s, nb, p3),
        None => None,
    }
}

/// Decode a response line: exactly the canonical encoding of one response,
/// with surrounding whitespace tolerated.
pub fn parse_response(line: &str) -> (r: Option<Response>)
    ensures
        r matches Option::Some(resp) ==> trim(line@) == encode_response_spec(resp),
        r is None ==> forall|resp: Response| trim(line@) != encode_response_spec(resp),
{
    let t = trimmed_chars(line);
    if chars_eq_lit(&t, "{\"type\":\"Ok\"}") {
        return Some(Response::Okay);
    }
    match parse_error_rest(&t) {
        Some(resp) => {
            return Some(resp);
        },
        None => {},
    }
    match parse_status_rest(&t) {
        Some(resp) => {
            return Some(resp);
        },
        None => {},
    }
    proof {
        assert forall|resp: Response| trim(line@) != encode_response_spec(resp) by {
            match resp {
                Response::Okay => {},
                Response::Error(m2) => {
                    assert(t@ != encode_response_spec(Response::Error(m2)));
                },
                Response::Status(si) => {
                    if t@ == encode_response_spec(Response::Status(si)) {
                        assert(exists|si2: StatusInfo|
                            t@ == encode_response_spec(Response::Status(si2)));
                    }
                },
            }
        }
    }
    None
}



/// Whether a character sequence stays on one line of the transport.
pub open spec fn line_safe(s: Seq<char>) -> bool {
    forall|k: int| 0 <= k < s.len() ==> s[k] != '\n'
}

proof fn lemma_line_safe_concat(a: Seq<char>, b: Seq<char>)
    requires
        line_safe(a),
        line_safe(b),
    ensures
        line_safe(a + b),
{
    assert forall|k: int| 0 <= k < (a + b).len() implies (a + b)[k] != '\n' by {
        if k < a.len() {
            assert((a + b)[k] == a[k]);
        } else {
            assert((a + b)[k] == b[k - a.len()]);
        }
    }
}

proof fn lemma_escape_char_line_safe(c: char)
    ensures
        line_safe(escape_char(c)),
{
    if !(c == '"' || c == '\\' || c == '\n' || c == '\r' || c == '\t') && (c as int) < 32 {
        crate::text::lemma_char_nonneg(c);
        assert(hex_digit(c as int / 16) as int >= 48);
        assert(hex_digit(c as int % 16) as int >= 48);
    }
}

proof fn lemma_escape_seq_line_safe(s: Seq<char>)
    ensures
        line_safe(escape_seq(s)),
    decreases s.len(),
{
    if s.len() == 0 {
        assert(line_safe(escape_seq(s)));
    } else {
        lemma_escape_char_line_safe(s[0]);
        lemma_escape_seq_line_safe(s.drop_first());
        lemma_line_safe_concat(escape_char(s[0]), escape_seq(s.drop_first()));
    }
}

proof fn lemma_dec_str_line_safe(n: int)
    requires
        0 <= n,
    ensures
        line_safe(dec_str(n)),
{
    lemma_dec_str_wf(n);
    assert forall|k: int| 0 <= k < dec_str(n).len() implies dec_str(n)[k] != '\n' by {
        assert(is_dec_digit(dec_str(n)[k]));
    }
}

/// Framing: an encoded request line never contains a line terminator, so
/// one request occupies exactly one line of the transport.
pub proof fn lemma_command_line_single(c: Command)
    ensures
        line_safe(encode_command_spec(c)),
{
    reveal_strlit("{\"type\":\"Pause\"}");
    reveal_strlit("{\"type\":\"Resume\"}");
    reveal_strlit("{\"type\":\"Stop\"}");
    reveal_strlit("{\"type\":\"Status\"}");
    reveal_strlit("{\"type\":\"Ring\"}");
    reveal_strlit("{\"type\":\"Reload\"}");
}

/// Framing: an encoded response line never contains a line terminator,
/// whatever message or state label it carries, so one response occupies
/// exactly one line of the transport.
pub proof fn lemma_response_line_single(r: Response)
    ensures
        line_safe(encode_response_spec(r)),
{
    match r {
        Response::Okay => {
            reveal_strlit("{\"type\":\"Ok\"}");
        },
        Response::Error(m) => {
            reveal_strlit("{\"type\":\"Error\",\"data\":\"");
            reveal_strlit("\"}");
            lemma_escape_seq_line_safe(m@);
            lemma_line_safe_concat(("{\"type\":\"Error\",\"data\":\"")@, escape_seq(m@));
            lemma_line_safe_concat(
                ("{\"type\":\"Error\",\"data\":\"")@ + escape_seq(m@),
                ("\"}")@,
            );
        },
        Response::Status(si) => {
            reveal_strlit("{\"type\":\"Status\",\"data\":{\"state\":\"");
            reveal_strlit("\",\"next_bell_secs\":");
            reveal_strlit(",\"interval_mins\":");
            reveal_strlit(",\"total_bells_session\":");
            reveal_strlit("}}");
            reveal_strlit("null");
            lemma_escape_seq_line_safe(si.state@);
            match si.next_bell_secs {
                Option::Some(v) => {
                    lemma_dec_str_line_safe(v as int);
                },
                Option::None => {},
            }
            lemma_dec_str_line_safe(si.interval_mins as int);
            lemma_dec_str_line_safe(si.total_bells_session as int);
            let a1 = ("{\"type\":\"Status\",\"data\":{\"state\":\"")@;
            let a2 = a1 + escape_seq(si.state@);
            let a3 = a2 + ("\",\"next_bell_secs\":")@;
            let a4 = a3 + opt_secs_text(si.next_bell_secs);
            let a5 = a4 + (",\"interval_mins\":")@;
            let a6 = a5 + dec_str(si.interval_mins as int);
            let a7 = a6 + (",\"total_bells_session\":")@;
            let a8 = a7 + dec_str(si.total_bells_session as int);
            lemma_line_safe_concat(a1, escape_seq(si.state@));
            lemma_line_safe_concat(a2, ("\",\"next_bell_secs\":")@);
            lemma_line_safe_concat(a3, opt_secs_text(si.next_bell_secs));
            lemma_line_safe_concat(a4, (",\"interval_mins\":")@);
            lemma_line_safe_concat(a5, dec_str(si.interval_mins as int));
            lemma_line_safe_concat(a6, (",\"total_bells_session\":")@);
            lemma_line_safe_concat(a7, dec_str(si.total_bells_session as int));
            lemma_line_safe_concat(a8, ("}}")@);
        },
    }
}

} // verus!
