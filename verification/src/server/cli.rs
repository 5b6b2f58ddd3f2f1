//! The host's command line: invite codes, upstreams and logs.
use crate::server::config;
use crate::server::ipc::{Response, ResponseData};
use crate::text;
use crate::wire::{self, EndpointId, InviteSecret};
use std::collections::VecDeque;
use vstd::prelude::*;
use vstd::utf8::encode_utf8;

verus! {

//-- Upstreams and backends -------------------------------------------------------
/// What an upstream on the command line stands for: as in the config file, but a bare
/// port is one on `localhost`.
pub open spec fn upstream_arg(given: Seq<char>) -> Result<Seq<char>, Seq<char>> {
    let s = text::trimmed(given);
    if s.len() == 0 {
        Err("upstream is empty"@)
    } else {
        match text::cut_last(s, ':') {
            None => config::dial_target(Seq::empty(), s),
            Some((host, port)) => config::dial_target(host, port),
        }
    }
}

/// Parse an upstream dial target in `[host:]port` form into a normalized `host:port`
/// string. A bare port (no colon) uses host `localhost`; an empty host (e.g. `:3000`)
/// defaults the same way. `localhost` rather than `127.0.0.1` so the dial tries both
/// address families: modern Node dev servers (e.g. Vite) often listen on `::1` only. A
/// non-numeric or out-of-range port is rejected. IPv6 literals would need bracket form
/// (`[::1]:3000`) and aren't handled here.
pub fn parse_upstream(s: &str) -> (r: Result<String, String>)
    ensures
        config::texts(r) == upstream_arg(s@),
{
    let s = text::trim(s);
    if s.as_str().is_empty() {
        return Err(text::copied("upstream is empty"));
    }
    // No colon: the whole thing is a port. Otherwise split off the port after the last
    // colon so the host may itself be a name like `app`.
    match text::rsplit_once(s.as_str(), ':') {
        None => {
            let host = String::new();
            assert(host@ =~= Seq::<char>::empty());
            config::dial(host.as_str(), s.as_str())
        },
        Some((host, port)) => config::dial(host.as_str(), port.as_str()),
    }
}

/// What `--backend` stands for: a self-hosted backend's base URL, none for the managed
/// one, or why it is refused.
pub open spec fn backend_arg(backend: Option<Seq<char>>) -> Result<Option<Seq<char>>, Seq<char>> {
    match backend {
        None => Ok(None),
        Some(raw) => {
            let url = text::trim_end_of(text::trimmed(raw), '/');
            if url.len() == 0 {
                Ok(None)
            } else if !"https://"@.is_prefix_of(url) {
                Err("backend URL must start with https:// (got '"@ + raw + "')"@)
            } else {
                Ok(Some(url))
            }
        },
    }
}

proof fn lemma_trimmed_end(s: Seq<char>, c: char)
    ensures
        text::trim_end_of(s, c).len() > 0 ==> text::trim_end_of(s, c).last() != c,
    decreases s.len(),
{
    if s.len() > 0 && s.last() == c {
        lemma_trimmed_end(s.drop_last(), c);
    }
}

/// Validate and normalize `--backend`. Both unset and empty mean the managed backend
/// (useful if set via env var). A URL without a host ends in the slashes of its scheme,
/// and so does not start with the scheme once they are trimmed.
pub fn normalize_backend(backend: Option<&str>) -> (r: Result<Option<String>, String>)
    ensures
        match r {
            Ok(url) => backend_arg(backend.deep_view()) == Ok::<Option<Seq<char>>, Seq<char>>(
                url.deep_view(),
            ),
            Err(e) => backend_arg(backend.deep_view()) == Err::<Option<Seq<char>>, Seq<char>>(e@),
        },
{
    match backend {
        None => Ok(None),
        Some(raw) => {
            let trimmed = text::trim(raw);
            let url = text::trim_end_matches(trimmed.as_str(), '/');
            if url.as_str().is_empty() {
                return Ok(None);
            }
            if !text::starts_with(url.as_str(), "https://") {
                let mut out = text::copied("backend URL must start with https:// (got '");
                out.append(raw);
                out.append("')");
                return Err(out);
            }
            Ok(Some(url))
        },
    }
}

/// A backend that is accepted has a host: something follows its scheme.
pub proof fn accepted_backends_have_a_host(raw: Seq<char>)
    ensures
        backend_arg(Some(raw)) matches Ok(Some(url)) ==> url.len() > "https://"@.len(),
{
    let url = text::trim_end_of(text::trimmed(raw), '/');
    lemma_trimmed_end(text::trimmed(raw), '/');
    reveal_strlit("https://");
    if "https://"@.is_prefix_of(url) && url.len() <= 8 {
        assert(url =~= "https://"@);
        assert(url.last() == '/');
    }
}

//-- Invite codes -----------------------------------------------------------------
/// The `k`th bit of `bytes`, the most significant of each byte first; zero behind the
/// last.
pub open spec fn bit(bytes: Seq<u8>, k: int) -> nat {
    if 0 <= k < 8 * bytes.len() {
        ((bytes[k / 8] >> ((7 - k % 8) as u8)) & 1u8) as nat
    } else {
        0
    }
}

/// The `i`th five bits of `bytes`, as a number.
pub open spec fn quintet(bytes: Seq<u8>, i: int) -> nat {
    16 * bit(bytes, 5 * i) + 8 * bit(bytes, 5 * i + 1) + 4 * bit(bytes, 5 * i + 2) + 2 * bit(
        bytes,
        5 * i + 3,
    ) + bit(bytes, 5 * i + 4)
}

/// The base32 symbol of a number below thirty-two: a letter, or a digit from 2 to 7.
pub open spec fn base32_symbol(n: nat) -> char {
    if n < 26 {
        (('A' as u32) + n) as char
    } else {
        (('2' as u32) + n - 26) as char
    }
}

/// The base32 encoding of `bytes`, in upper case and without padding: a symbol for every
/// five bits.
pub open spec fn base32(bytes: Seq<u8>) -> Seq<char> {
    Seq::new(((8 * bytes.len() + 4) / 5) as nat, |i: int| base32_symbol(quintet(bytes, i)))
}

/// `data_encoding::BASE32_NOPAD.encode`: the base32 encoding of RFC 4648, without
/// padding.
#[verifier::external_body]
fn base32_nopad(bytes: &[u8]) -> (r: String)
    ensures
        r@ == base32(bytes@),
{
    data_encoding::BASE32_NOPAD.encode(bytes)
}

/// A backend URL as it stands in an invite code: base32, in lower case, unpadded.
pub open spec fn backend_field(backend: Seq<char>) -> Seq<char> {
    base32(encode_utf8(backend)).map_values(|c: char| crate::headers::lower_char(c))
}

/// base32 of a backend URL, lowercase, unpadded.
pub fn encode_backend(backend: &str) -> (r: String)
    ensures
        r@ == backend_field(backend@),
{
    let encoded = base32_nopad(backend.as_bytes());
    crate::headers::lower_text(encoded.as_str())
}

/// An invite code.
pub open spec fn wax_code(
    registration_token: Seq<char>,
    activation_code: Seq<char>,
    backend: Option<Seq<char>>,
) -> Seq<char> {
    let base = "wax_"@ + registration_token + "_"@ + activation_code;
    match backend {
        Some(b) => base + "_"@ + backend_field(b),
        None => base,
    }
}

/// Composes the user-facing invite code from its raw parts. The activation code keeps its
/// native `<node>-<secret>` form so the endorsing node stays encoded; the `wax_` prefix
/// makes codes recognizable and greppable.
///
/// If there's a custom backend, appends it as an additional, base32-encoded field.
pub fn compose_wax_code(
    registration_token: &str,
    activation_code: &str,
    backend: Option<&str>,
) -> (r: String)
    ensures
        r@ == wax_code(registration_token@, activation_code@, backend.deep_view()),
{
    let mut out = text::copied("wax_");
    out.append(registration_token);
    out.append("_");
    out.append(activation_code);
    if let Some(b) = backend {
        out.append("_");
        out.append(encode_backend(b).as_str());
    }
    out
}

/// The invite code of an iroh share: the host's key and the secret, in hexadecimal.
pub open spec fn iroh_code(endpoint_id: Seq<u8>, secret: Seq<u8>) -> Seq<char> {
    "wax_iroh_"@ + wire::hex(endpoint_id) + "_"@ + wire::hex(secret)
}

/// Composes the invite code of an iroh share.
pub fn compose_iroh_code(endpoint_id: &EndpointId, secret: &InviteSecret) -> (r: String)
    ensures
        r@ == iroh_code(endpoint_id.0@, secret.0@),
{
    let mut out = text::copied("wax_iroh_");
    out.append(endpoint_id.to_hex().as_str());
    out.append("_");
    out.append(secret.to_hex().as_str());
    out
}

proof fn lemma_quintet(bytes: Seq<u8>, i: int)
    ensures
        quintet(bytes, i) < 32,
        bit(bytes, 5 * i) < 2,
        bit(bytes, 5 * i + 1) < 2,
        bit(bytes, 5 * i + 2) < 2,
        bit(bytes, 5 * i + 3) < 2,
        bit(bytes, 5 * i + 4) < 2,
{
    lemma_bit(bytes, 5 * i);
    lemma_bit(bytes, 5 * i + 1);
    lemma_bit(bytes, 5 * i + 2);
    lemma_bit(bytes, 5 * i + 3);
    lemma_bit(bytes, 5 * i + 4);
}

proof fn lemma_bit(bytes: Seq<u8>, k: int)
    ensures
        bit(bytes, k) < 2,
{
    if 0 <= k < 8 * bytes.len() {
        let b = bytes[k / 8];
        let s = (7 - k % 8) as u8;
        assert((b >> s) & 1u8 < 2) by (bit_vector);
    }
}

/// The backend field of an invite code never brings back the delimiter: its characters
/// are lower-case letters and digits.
pub proof fn backend_field_has_no_delimiter(backend: Seq<char>, i: int)
    requires
        0 <= i < backend_field(backend).len(),
    ensures
        'a' <= backend_field(backend)[i] <= 'z' || '2' <= backend_field(backend)[i] <= '7',
        backend_field(backend)[i] != '_',
{
    lemma_quintet(encode_utf8(backend), i);
}

proof fn lemma_byte_from_bits(a: u8, b: u8)
    requires
        (a >> 7u8) & 1u8 == (b >> 7u8) & 1u8,
        (a >> 6u8) & 1u8 == (b >> 6u8) & 1u8,
        (a >> 5u8) & 1u8 == (b >> 5u8) & 1u8,
        (a >> 4u8) & 1u8 == (b >> 4u8) & 1u8,
        (a >> 3u8) & 1u8 == (b >> 3u8) & 1u8,
        (a >> 2u8) & 1u8 == (b >> 2u8) & 1u8,
        (a >> 1u8) & 1u8 == (b >> 1u8) & 1u8,
        (a >> 0u8) & 1u8 == (b >> 0u8) & 1u8,
    ensures
        a == b,
{
    assert((a >> 7u8) & 1u8 == (b >> 7u8) & 1u8 && (a >> 6u8) & 1u8 == (b >> 6u8) & 1u8 && (a
        >> 5u8) & 1u8 == (b >> 5u8) & 1u8 && (a >> 4u8) & 1u8 == (b >> 4u8) & 1u8 && (a >> 3u8)
        & 1u8 == (b >> 3u8) & 1u8 && (a >> 2u8) & 1u8 == (b >> 2u8) & 1u8 && (a >> 1u8) & 1u8 == (b
        >> 1u8) & 1u8 && (a >> 0u8) & 1u8 == (b >> 0u8) & 1u8 ==> a == b) by (bit_vector);
}

proof fn lemma_symbols_differ(m: nat, n: nat)
    requires
        m < 32,
        n < 32,
        m != n,
    ensures
        crate::headers::lower_char(base32_symbol(m)) != crate::headers::lower_char(
            base32_symbol(n),
        ),
{
    assert(base32_symbol(m) as u32 == if m < 26 {
        65 + m
    } else {
        24 + m
    });
    assert(base32_symbol(n) as u32 == if n < 26 {
        65 + n
    } else {
        24 + n
    });
}

proof fn lemma_base32_injective(a: Seq<u8>, b: Seq<u8>)
    requires
        backend_symbols(a) == backend_symbols(b),
    ensures
        a == b,
{
    let n = backend_symbols(a).len();
    assert(a.len() == b.len());
    assert forall|k: int| 0 <= k < 8 * a.len() implies bit(a, k) == bit(b, k) by {
        let i = k / 5;
        assert(0 <= i < n);
        assert(backend_symbols(a)[i] == backend_symbols(b)[i]);
        lemma_quintet(a, i);
        lemma_quintet(b, i);
        assert(backend_symbols(a)[i] == crate::headers::lower_char(base32_symbol(quintet(a, i))));
        assert(backend_symbols(b)[i] == crate::headers::lower_char(base32_symbol(quintet(b, i))));
        if quintet(a, i) != quintet(b, i) {
            lemma_symbols_differ(quintet(a, i), quintet(b, i));
        }
        assert(k == 5 * i || k == 5 * i + 1 || k == 5 * i + 2 || k == 5 * i + 3 || k == 5 * i + 4);
    }
    assert forall|j: int| 0 <= j < a.len() implies a[j] == b[j] by {
        assert(bit(a, 8 * j) == bit(b, 8 * j));
        assert(bit(a, 8 * j + 1) == bit(b, 8 * j + 1));
        assert(bit(a, 8 * j + 2) == bit(b, 8 * j + 2));
        assert(bit(a, 8 * j + 3) == bit(b, 8 * j + 3));
        assert(bit(a, 8 * j + 4) == bit(b, 8 * j + 4));
        assert(bit(a, 8 * j + 5) == bit(b, 8 * j + 5));
        assert(bit(a, 8 * j + 6) == bit(b, 8 * j + 6));
        assert(bit(a, 8 * j + 7) == bit(b, 8 * j + 7));
        lemma_byte_from_bits(a[j], b[j]);
    }
    assert(a =~= b);
}

/// No two byte sequences have the same base32 encoding.
pub(crate) proof fn lemma_base32_unique(a: Seq<u8>, b: Seq<u8>)
    requires
        base32(a) == base32(b),
    ensures
        a == b,
{
    lemma_base32_injective(a, b);
}

/// The base32 encoding of bytes that start with an `h` starts with an `N`.
pub(crate) proof fn lemma_base32_of_h(bytes: Seq<u8>)
    requires
        bytes.len() > 0,
        bytes[0] == 0x68,
    ensures
        base32(bytes).len() > 0,
        base32(bytes)[0] == 'N',
{
    assert((0x68u8 >> 7u8) & 1u8 == 0 && (0x68u8 >> 6u8) & 1u8 == 1 && (0x68u8 >> 5u8) & 1u8 == 1
        && (0x68u8 >> 4u8) & 1u8 == 0 && (0x68u8 >> 3u8) & 1u8 == 1) by (bit_vector);
    assert(quintet(bytes, 0) == 13);
}

/// The backend field in upper case is the base32 encoding again.
pub(crate) proof fn lemma_upper_field(backend: Seq<char>)
    ensures
        forall|i: int|
            0 <= i < backend_field(backend).len() ==> crate::guest::invite::upper_char(
                #[trigger] backend_field(backend)[i],
            ) == base32(encode_utf8(backend))[i],
{
    let bytes = encode_utf8(backend);
    assert forall|i: int| 0 <= i < backend_field(backend).len() implies crate::guest::invite::upper_char(
        #[trigger] backend_field(backend)[i],
    ) == base32(bytes)[i] by {
        lemma_quintet(bytes, i);
        let n = quintet(bytes, i);
        assert(base32_symbol(n) as u32 == if n < 26 {
            65 + n
        } else {
            24 + n
        });
    }
}

spec fn backend_symbols(bytes: Seq<u8>) -> Seq<char> {
    base32(bytes).map_values(|c: char| crate::headers::lower_char(c))
}

/// An invite code names its backend: two backends with the same field are the same.
pub proof fn backend_field_round_trips(a: Seq<char>, b: Seq<char>)
    requires
        backend_field(a) == backend_field(b),
    ensures
        a == b,
{
    assert(backend_field(a) == backend_symbols(encode_utf8(a)));
    assert(backend_field(b) == backend_symbols(encode_utf8(b)));
    lemma_base32_injective(encode_utf8(a), encode_utf8(b));
    vstd::utf8::encode_utf8_decode_utf8(a);
    vstd::utf8::encode_utf8_decode_utf8(b);
}

//-- QR codes ---------------------------------------------------------------------
/// The modules of a QR code, row by row: whether each is dark.
#[derive(Clone, Debug, PartialEq, Eq)]
pub struct QrModules {
    pub width: usize,
    pub dark: Vec<bool>,
}

impl QrModules {
    /// As many modules as a square of its width has.
    pub open spec fn wf(self) -> bool {
        self.dark@.len() == self.width * self.width && self.width <= 177
    }
}

/// `qrcode::QrCode::new`: the width of the QR code of some data, and its modules; nothing
/// where the data is too long.
pub uninterp spec fn qr_code(data: Seq<u8>) -> Option<(usize, Seq<bool>)>;

/// `qrcode::QrCode::new`, with `width` and `to_colors` of what it gives: the smallest QR
/// code of the data at the medium error correction level. It is a square, at most 177
/// modules wide.
#[verifier::external_body]
fn qr_modules(data: &[u8]) -> (r: Option<QrModules>)
    ensures
        match r {
            Some(q) => q.wf() && qr_code(data@) == Some((q.width, q.dark@)),
            None => qr_code(data@) is None,
        },
{
    let qr = qrcode::QrCode::new(data).ok()?;
    let dark = qr.to_colors().into_iter().map(|c| c == qrcode::Color::Dark).collect();
    Some(QrModules { width: qr.width(), dark })
}

/// The standard quiet zone, in modules.
pub const QUIET: usize = 4;

/// Whether the module in column `x` and row `y` is dark, counted from the corner of the
/// quiet zone, which is light.
pub open spec fn is_dark(width: int, dark: Seq<bool>, x: int, y: int) -> bool {
    &&& QUIET <= x < QUIET + width
    &&& QUIET <= y < QUIET + width
    &&& dark[(y - QUIET) * width + (x - QUIET)]
}

/// How a colour is written.
pub open spec fn colour(dark: bool) -> Seq<char> {
    if dark {
        "0;0;0"@
    } else {
        "255;255;255"@
    }
}

/// Two modules, one above the other, as one character of a terminal.
pub open spec fn cell(width: int, dark: Seq<bool>, x: int, y: int) -> Seq<char> {
    "\x1b[38;2;"@ + colour(is_dark(width, dark, x, y)) + "m\x1b[48;2;"@ + colour(
        is_dark(width, dark, x, y + 1),
    ) + "m\u{2580}"@
}

/// The first `n` characters of the line for the rows `y` and `y + 1`.
pub open spec fn cells(width: int, dark: Seq<bool>, y: int, n: int) -> Seq<char>
    decreases n,
{
    if n <= 0 {
        Seq::empty()
    } else {
        cells(width, dark, y, n - 1) + cell(width, dark, n - 1, y)
    }
}

/// The lines for the rows above `y`, two rows each.
pub open spec fn qr_lines(width: int, dark: Seq<bool>, y: int) -> Seq<char>
    decreases y,
{
    if y < 2 {
        Seq::empty()
    } else {
        qr_lines(width, dark, y - 2) + cells(width, dark, y - 2, width + 2 * QUIET) + "\x1b[0m\n"@
    }
}

/// The number of rows with the quiet zone, rounded up to an even one.
pub open spec fn qr_rows(width: int) -> int {
    width + 2 * QUIET + width % 2
}

fn dark_at(qr: &QrModules, x: usize, y: usize) -> (r: bool)
    requires
        qr.wf(),
    ensures
        r == is_dark(qr.width as int, qr.dark@, x as int, y as int),
{
    let w: usize = qr.width;
    if x < QUIET || y < QUIET || x >= QUIET + w || y >= QUIET + w {
        return false;
    }
    let row: usize = y - QUIET;
    let col: usize = x - QUIET;
    assert(row * w <= (w - 1) * w && (w - 1) * w + w == w * w) by (nonlinear_arith)
        requires
            row <= w - 1,
            0 <= w,
    ;
    assert(w * w <= 177 * 177) by (nonlinear_arith)
        requires
            w <= 177,
    ;
    qr.dark[row * w + col]
}

/// Render a QR code to a terminal string that scans regardless of terminal theme.
///
/// Drawing modules in the terminal's *foreground* colour on its *background* comes out
/// inverted (light modules on dark) on a dark terminal, and scanners, which expect
/// dark-on-light, reject it. Here every module gets an explicit truecolour black/white, so
/// it is always dark-on-light. The upper half block packs two module rows per line: the
/// glyph's foreground is the top module, its background the bottom one.
pub fn render_qr_ansi(qr: &QrModules) -> (r: String)
    requires
        qr.wf(),
    ensures
        r@ == qr_lines(qr.width as int, qr.dark@, qr_rows(qr.width as int)),
{
    let w: usize = qr.width;
    let size: usize = w + 2 * QUIET;
    let mut out = String::new();
    let mut y: usize = 0;
    assert(out@ =~= qr_lines(w as int, qr.dark@, 0));
    while y < size
        invariant
            qr.wf(),
            w == qr.width,
            size == w + 2 * QUIET,
            y % 2 == 0,
            y <= qr_rows(w as int),
            out@ == qr_lines(w as int, qr.dark@, y as int),
        decreases size + 2 - y,
    {
        let ghost head = out@;
        let mut x: usize = 0;
        assert(out@ =~= head + cells(w as int, qr.dark@, y as int, 0));
        while x < size
            invariant
                qr.wf(),
                w == qr.width,
                size == w + 2 * QUIET,
                x <= size,
                y < size,
                out@ == head + cells(w as int, qr.dark@, y as int, x as int),
            decreases size - x,
        {
            let ghost before = out@;
            out.append("\x1b[38;2;");
            out.append(
                if dark_at(qr, x, y) {
                    "0;0;0"
                } else {
                    "255;255;255"
                },
            );
            out.append("m\x1b[48;2;");
            out.append(
                if dark_at(qr, x, y + 1) {
                    "0;0;0"
                } else {
                    "255;255;255"
                },
            );
            out.append("m\u{2580}");
            assert(out@ =~= before + cell(w as int, qr.dark@, x as int, y as int));
            x = x + 1;
            assert(out@ =~= head + cells(w as int, qr.dark@, y as int, x as int));
        }
        // Reset colours at the end of each line.
        out.append("\x1b[0m\n");
        y = y + 2;
        assert(out@ =~= qr_lines(w as int, qr.dark@, y as int));
    }
    out
}

//-- Commands to a running server -------------------------------------------------
/// What a request to a running server came to.
pub enum Asked {
    /// There is no server to ask.
    NoServer,
    /// The request could not be sent, or not be answered.
    Failed(String),
    Answered(Response),
}

/// The failure of a request to a server, whatever it was for.
pub open spec fn request_failure(asked: Asked, share: Seq<char>) -> Option<Seq<char>> {
    match asked {
        Asked::NoServer => Some("cannot connect to server for share "@ + share),
        Asked::Failed(e) => Some("error sending command to server: "@ + e@),
        Asked::Answered(_) => None,
    }
}

fn no_server(share: &str) -> (r: String)
    ensures
        r@ == "cannot connect to server for share "@ + share@,
{
    let mut out = text::copied("cannot connect to server for share ");
    out.append(share);
    out
}

fn not_sent(e: &str) -> (r: String)
    ensures
        r@ == "error sending command to server: "@ + e@,
{
    let mut out = text::copied("error sending command to server: ");
    out.append(e);
    out
}

/// What stopping a server came to.
pub fn stop(share: &str, asked: Asked) -> (r: Result<(), String>)
    ensures
        match asked {
            Asked::Answered(Response::Success { .. }) => r is Ok,
            Asked::Answered(Response::Error { error, .. }) => r matches Err(e) && e@
                == "error stopping server: "@ + error@,
            _ => r matches Err(e) && request_failure(asked, share@) == Some(e@),
        },
{
    match asked {
        Asked::NoServer => Err(no_server(share)),
        Asked::Failed(e) => Err(not_sent(e.as_str())),
        Asked::Answered(Response::Success { .. }) => Ok(()),
        Asked::Answered(Response::Error { error, .. }) => {
            let mut out = text::copied("error stopping server: ");
            out.append(error.as_str());
            Err(out)
        },
    }
}

/// The invite code that a server minted.
pub fn minted_code(share: &str, asked: Asked) -> (r: Result<String, String>)
    ensures
        match asked {
            Asked::Answered(Response::Success { data: ResponseData::Invite(invite), .. }) => r
                == Ok::<String, String>(invite.code),
            Asked::Answered(Response::Success { .. }) => r matches Err(e) && e@
                == "unexpected response from server"@,
            Asked::Answered(Response::Error { error, .. }) => r matches Err(e) && e@
                == "error generating invite: "@ + error@,
            _ => r matches Err(e) && request_failure(asked, share@) == Some(e@),
        },
{
    match asked {
        Asked::NoServer => Err(no_server(share)),
        Asked::Failed(e) => Err(not_sent(e.as_str())),
        Asked::Answered(Response::Success { data, .. }) => match data {
            ResponseData::Invite(invite) => Ok(invite.code),
            _ => Err(text::copied("unexpected response from server")),
        },
        Asked::Answered(Response::Error { error, .. }) => {
            let mut out = text::copied("error generating invite: ");
            out.append(error.as_str());
            Err(out)
        },
    }
}

/// How an invite is shown: its code, and the code as a QR code.
pub open spec fn invite_output(code: Seq<char>, width: int, dark: Seq<bool>) -> Seq<char> {
    "Invite code (valid for 24 hours):\n\n  "@ + code + "\n\n"@ + qr_lines(
        width,
        dark,
        qr_rows(width),
    ) + "\n"@
}

/// Shows an invite code with the modules of its QR code.
pub fn show_invite(code: &str, qr: &QrModules) -> (r: String)
    requires
        qr.wf(),
    ensures
        r@ == invite_output(code@, qr.width as int, qr.dark@),
{
    let mut out = text::copied("Invite code (valid for 24 hours):\n\n  ");
    out.append(code);
    out.append("\n\n");
    out.append(render_qr_ansi(qr).as_str());
    out.append("\n");
    out
}

/// An invite as it is shown, and its QR code for a picture of it.
#[derive(Debug, PartialEq, Eq)]
pub struct ShownInvite {
    pub output: String,
    pub qr: QrModules,
}

/// What `invite` shows, by what the server answered.
pub fn invite(share: &str, asked: Asked) -> (r: Result<ShownInvite, String>)
    ensures
        match asked {
            Asked::Answered(Response::Success { data: ResponseData::Invite(invite), .. }) =>
                match qr_code(encode_utf8(invite.code@)) {
                    Some((width, dark)) => r matches Ok(shown) && shown.output@ == invite_output(
                        invite.code@,
                        width as int,
                        dark,
                    ) && shown.qr.wf() && shown.qr.width == width && shown.qr.dark@ == dark,
                    None => r matches Err(e) && e@ == "cannot build QR code"@,
                },
            Asked::Answered(Response::Success { .. }) => r matches Err(e) && e@
                == "unexpected response from server"@,
            Asked::Answered(Response::Error { error, .. }) => r matches Err(e) && e@
                == "error generating invite: "@ + error@,
            _ => r matches Err(e) && request_failure(asked, share@) == Some(e@),
        },
{
    let code = match minted_code(share, asked) {
        Ok(code) => code,
        Err(e) => {
            return Err(e);
        },
    };
    match qr_modules(code.as_str().as_bytes()) {
        Some(qr) => Ok(ShownInvite { output: show_invite(code.as_str(), &qr), qr }),
        None => Err(text::copied("cannot build QR code")),
    }
}

//-- Logs -------------------------------------------------------------------------
/// Where the printing of a share's logs stands: the file being read, and those to be read
/// after it.
pub struct Logs {
    pub path: String,
    pub next: VecDeque<String>,
}

/// What to do at the end of a log file.
#[derive(Clone, Copy, Debug, PartialEq, Eq, Structural)]
pub enum AtEnd {
    /// Go on with the file that is now the current one.
    Open,
    /// All is printed.
    Done,
    /// List the log files again: they may have been rotated.
    ListAgain,
}

/// What to do once the log files were listed again.
#[derive(Clone, Copy, Debug, PartialEq, Eq, Structural)]
pub enum AfterList {
    /// Go on with the file that is now the current one.
    Open,
    /// There is no newer file: wait, and read on.
    Wait,
}

/// Whether a file is a log: the day it was written follows in its name.
pub open spec fn is_log(name: Seq<char>) -> bool {
    "waserver.log"@.is_prefix_of(name)
}

/// The log files among the files of a share's log directory, oldest first: their names end
/// in the day.
pub fn log_files(names: Vec<String>) -> (r: Vec<String>)
    ensures
        text::sorted(r.deep_view()),
        r@.to_multiset() == names@.filter(|name: String| is_log(name@)).to_multiset(),
{
    let mut rest = names;
    let mut logs: Vec<String> = Vec::new();
    let ghost log = |name: String| is_log(name@);
    proof {
        logs@.to_multiset_ensures();
        assert(logs@.to_multiset().add(rest@.filter(log).to_multiset())
            =~= names@.filter(log).to_multiset());
    }
    while rest.len() > 0
        invariant
            log == (|name: String| is_log(name@)),
            logs@.to_multiset().add(rest@.filter(log).to_multiset()) == names@.filter(
                log,
            ).to_multiset(),
        decreases rest@.len(),
    {
        let ghost all = rest@;
        let ghost found = logs@;
        if let Some(name) = rest.pop() {
            let kept = text::starts_with(name.as_str(), "waserver.log");
            proof {
                reveal(Seq::filter);
                assert(all.drop_last() =~= rest@);
                rest@.filter(log).to_multiset_ensures();
                found.to_multiset_ensures();
            }
            if kept {
                logs.push(name);
            }
            assert(logs@.to_multiset().add(rest@.filter(log).to_multiset()) =~= names@.filter(
                log,
            ).to_multiset());
        }
    }
    proof {
        reveal(Seq::filter);
        rest@.filter(log).to_multiset_ensures();
        assert(logs@.to_multiset() =~= names@.filter(log).to_multiset());
    }
    text::sort(&mut logs);
    logs
}

/// Those of the first `n` files that are newer than `path`, in their order.
pub open spec fn newer(listed: Seq<String>, path: Seq<char>, n: int) -> Seq<String>
    decreases n,
{
    if n <= 0 {
        Seq::empty()
    } else if text::text_less(path, listed[n - 1]@) {
        newer(listed, path, n - 1).push(listed[n - 1])
    } else {
        newer(listed, path, n - 1)
    }
}

proof fn lemma_newer(listed: Seq<String>, path: Seq<char>, n: int)
    requires
        0 <= n <= listed.len(),
    ensures
        forall|i: int|
            0 <= i < newer(listed, path, n).len() ==> text::text_less(
                path,
                (#[trigger] newer(listed, path, n)[i])@,
            ),
    decreases n,
{
    if n > 0 {
        lemma_newer(listed, path, n - 1);
        let before = newer(listed, path, n - 1);
        assert forall|i: int| 0 <= i < newer(listed, path, n).len() implies text::text_less(
            path,
            (#[trigger] newer(listed, path, n)[i])@,
        ) by {
            if i < before.len() {
                assert(newer(listed, path, n)[i] == before[i]);
            }
        }
    }
}

impl Logs {
    /// Starts with the first of the listed files. There is nothing to print where there
    /// is none.
    pub fn start(listed: Vec<String>) -> (r: Option<Logs>)
        ensures
            match r {
                Some(logs) => listed@.len() > 0 && logs.path@ == listed@[0]@ && logs.next.deep_view()
                    == listed.deep_view().drop_first(),
                None => listed@.len() == 0,
            },
    {
        if listed.len() == 0 {
            return None;
        }
        let mut next: VecDeque<String> = VecDeque::new();
        let mut i: usize = 1;
        while i < listed.len()
            invariant
                1 <= i <= listed@.len(),
                next@.len() == i - 1,
                forall|j: int| 0 <= j < next@.len() ==> (#[trigger] next@[j])@ == listed@[j + 1]@,
            decreases listed@.len() - i,
        {
            next.push_back(text::copied(listed[i].as_str()));
            i = i + 1;
        }
        assert(next.deep_view() =~= listed.deep_view().drop_first());
        Some(Logs { path: text::copied(listed[0].as_str()), next })
    }

    /// The end of the current file. If there's another file in the list, that is the next
    /// one; else it depends on whether newer logs are waited for.
    pub fn at_end(&mut self, follow: bool) -> (r: AtEnd)
        ensures
            if old(self).next@.len() > 0 {
                r == AtEnd::Open && final(self).path == old(self).next@[0] && final(self).next@
                    == old(self).next@.drop_first()
            } else {
                final(self).path == old(self).path && final(self).next@ == old(self).next@ && r
                    == if follow {
                    AtEnd::ListAgain
                } else {
                    AtEnd::Done
                }
            },
    {
        match self.next.pop_front() {
            Some(path) => {
                self.path = path;
                assert(self.next@ =~= old(self).next@.drop_first());
                AtEnd::Open
            },
            None => {
                if follow {
                    AtEnd::ListAgain
                } else {
                    AtEnd::Done
                }
            },
        }
    }

    /// The files were listed again: those newer than the current one are next.
    pub fn listed_again(&mut self, listed: Vec<String>) -> (r: AfterList)
        requires
            old(self).next@.len() == 0,
        ensures
            ({
                let found = newer(listed@, old(self).path@, listed@.len() as int);
                if found.len() > 0 {
                    &&& r == AfterList::Open
                    &&& final(self).path@ == found[0]@
                    &&& final(self).next.deep_view() == found.drop_first().map_values(|s: String| s@)
                    &&& text::text_less(old(self).path@, final(self).path@)
                } else {
                    r == AfterList::Wait && final(self).path == old(self).path
                        && final(self).next@.len() == 0
                }
            }),
    {
        let ghost path = self.path@;
        let mut i: usize = 0;
        while i < listed.len()
            invariant
                i <= listed@.len(),
                self.path == old(self).path,
                self.path@ == path,
                self.next@.len() == newer(listed@, path, i as int).len(),
                forall|j: int|
                    0 <= j < self.next@.len() ==> (#[trigger] self.next@[j])@ == newer(
                        listed@,
                        path,
                        i as int,
                    )[j]@,
            decreases listed@.len() - i,
        {
            if text::precedes(self.path.as_str(), listed[i].as_str()) {
                let ghost before = self.next@;
                self.next.push_back(text::copied(listed[i].as_str()));
                assert forall|j: int| 0 <= j < self.next@.len() implies (
                #[trigger] self.next@[j])@ == newer(listed@, path, i + 1)[j]@ by {
                    if j < before.len() {
                        assert(self.next@[j] == before[j]);
                    }
                }
            }
            i = i + 1;
        }
        proof {
            lemma_newer(listed@, path, listed@.len() as int);
        }
        let ghost found = newer(listed@, path, listed@.len() as int);
        let ghost all = self.next@;
        match self.next.pop_front() {
            Some(next) => {
                assert(next == all[0]);
                assert(all[0]@ == found[0]@);
                self.path = next;
                assert(self.next.deep_view() =~= found.drop_first().map_values(|s: String| s@)) by {
                    assert forall|j: int| 0 <= j < self.next@.len() implies (
                    #[trigger] self.next@[j])@ == found[j + 1]@ by {
                        assert(self.next@[j] == all[j + 1]);
                    }
                }
                AfterList::Open
            },
            None => AfterList::Wait,
        }
    }
}

//-- What a QR code looks like ----------------------------------------------------
/// A QR code is drawn module by module. Taking the output apart at its line ends, and each
/// line at its block characters, what stands before the block in line `l` and column `x` sets
/// the colour of the module in column `x - 4` and row `2l - 4` above that of the module right
/// below it: black exactly where that module of the code is dark, and white elsewhere, in the
/// border of four modules all round. Colours are reset at the end of each line.
pub proof fn qr_codes_are_drawn_module_by_module(qr: QrModules, l: int, x: int)
    requires
        qr.wf(),
    ensures
        ({
            let w = qr.width as int;
            let output = qr_lines(w, qr.dark@, qr_rows(w));
            let lines = text::pieces(output, '\n');
            let chars = text::pieces(lines[l], '\u{2580}');
            let black = |row: int|
                0 <= x - 4 < w && 0 <= row < w && qr.dark@[row * w + (x - 4)];
            let colour_of = |row: int|
                if black(row) {
                    "0;0;0"@
                } else {
                    "255;255;255"@
                };
            &&& lines.len() == (w + 9) / 2 + 1
            &&& lines.last().len() == 0
            &&& 0 <= l < (w + 9) / 2 ==> {
                &&& chars.len() == w + 9
                &&& chars.last() == "\x1b[0m"@
                &&& 0 <= x < w + 8 ==> chars[x] == "\x1b[38;2;"@ + colour_of(2 * l - 4)
                    + "m\x1b[48;2;"@ + colour_of(2 * l - 3) + "m"@
            }
        }),
{
    let w = qr.width as int;
    lemma_qr_lines(w, qr.dark@, (w + 9) / 2);
    assert(qr_rows(w) == 2 * ((w + 9) / 2));
    if 0 <= l < (w + 9) / 2 {
        let lines = text::pieces(qr_lines(w, qr.dark@, qr_rows(w)), '\n');
        assert(lines[l] == qr_line(w, qr.dark@, l));
        lemma_cells(w, qr.dark@, 2 * l, w + 8);
        reveal_strlit("\x1b[0m");
        let drawn = cells(w, qr.dark@, 2 * l, w + 8);
        text::lemma_pieces_grow(drawn, "\x1b[0m"@, '\u{2580}');
        let chars = text::pieces(lines[l], '\u{2580}');
        assert(chars.last() =~= "\x1b[0m"@);
        if 0 <= x < w + 8 {
            assert(chars[x] == ink(w, qr.dark@, x, 2 * l));
        }
    }
}

/// What stands before a block character.
spec fn ink(width: int, dark: Seq<bool>, x: int, y: int) -> Seq<char> {
    "\x1b[38;2;"@ + colour(is_dark(width, dark, x, y)) + "m\x1b[48;2;"@ + colour(
        is_dark(width, dark, x, y + 1),
    ) + "m"@
}

spec fn qr_line(width: int, dark: Seq<bool>, l: int) -> Seq<char> {
    cells(width, dark, 2 * l, width + 8) + "\x1b[0m"@
}

proof fn lemma_ink(width: int, dark: Seq<bool>, x: int, y: int)
    ensures
        cell(width, dark, x, y) == ink(width, dark, x, y).push('\u{2580}'),
        forall|i: int|
            0 <= i < ink(width, dark, x, y).len() ==> #[trigger] ink(width, dark, x, y)[i]
                != '\u{2580}' && ink(width, dark, x, y)[i] != '\n',
{
    reveal_strlit("\x1b[38;2;");
    reveal_strlit("m\x1b[48;2;");
    reveal_strlit("m\u{2580}");
    reveal_strlit("m");
    reveal_strlit("0;0;0");
    reveal_strlit("255;255;255");
    assert(cell(width, dark, x, y) =~= ink(width, dark, x, y).push('\u{2580}'));
}

proof fn lemma_cells(width: int, dark: Seq<bool>, y: int, n: int)
    requires
        0 <= n,
    ensures
        text::pieces(cells(width, dark, y, n), '\u{2580}').len() == n + 1,
        text::pieces(cells(width, dark, y, n), '\u{2580}').last().len() == 0,
        forall|x: int|
            0 <= x < n ==> #[trigger] text::pieces(cells(width, dark, y, n), '\u{2580}')[x] == ink(
                width,
                dark,
                x,
                y,
            ),
        forall|i: int|
            0 <= i < cells(width, dark, y, n).len() ==> #[trigger] cells(width, dark, y, n)[i]
                != '\n',
    decreases n,
{
    let c = '\u{2580}';
    if n == 0 {
        text::lemma_first_index(Seq::empty(), c);
        assert(text::pieces(Seq::empty(), c) =~= seq![Seq::<char>::empty()]);
    } else {
        lemma_cells(width, dark, y, n - 1);
        lemma_ink(width, dark, n - 1, y);
        let before = cells(width, dark, y, n - 1);
        let mark = ink(width, dark, n - 1, y);
        text::lemma_pieces_grow(before, mark, c);
        text::lemma_pieces_end(before + mark, c);
        assert(cells(width, dark, y, n) =~= (before + mark).push(c));
        assert(text::pieces(before, c).last() + mark =~= mark);
        let all = text::pieces(cells(width, dark, y, n), c);
        assert(all =~= text::pieces(before, c).drop_last().push(mark).push(Seq::empty()));
        assert forall|i: int| 0 <= i < cells(width, dark, y, n).len() implies #[trigger] cells(
            width,
            dark,
            y,
            n,
        )[i] != '\n' by {
            if i < before.len() {
                assert(cells(width, dark, y, n)[i] == before[i]);
            } else if i < before.len() + mark.len() {
                assert(cells(width, dark, y, n)[i] == mark[i - before.len()]);
            }
        }
    }
}

proof fn lemma_qr_lines(width: int, dark: Seq<bool>, n: int)
    requires
        0 <= n,
        0 <= width,
    ensures
        text::pieces(qr_lines(width, dark, 2 * n), '\n').len() == n + 1,
        text::pieces(qr_lines(width, dark, 2 * n), '\n').last().len() == 0,
        forall|l: int|
            0 <= l < n ==> #[trigger] text::pieces(qr_lines(width, dark, 2 * n), '\n')[l]
                == qr_line(width, dark, l),
    decreases n,
{
    let c = '\n';
    if n == 0 {
        text::lemma_first_index(Seq::empty(), c);
        assert(text::pieces(Seq::empty(), c) =~= seq![Seq::<char>::empty()]);
    } else {
        lemma_qr_lines(width, dark, n - 1);
        let before = qr_lines(width, dark, 2 * (n - 1));
        let line = qr_line(width, dark, n - 1);
        lemma_cells(width, dark, 2 * (n - 1), width + 8);
        reveal_strlit("\x1b[0m");
        reveal_strlit("\x1b[0m\n");
        assert forall|i: int| 0 <= i < line.len() implies #[trigger] line[i] != c by {
            let drawn = cells(width, dark, 2 * (n - 1), width + 8);
            if i < drawn.len() {
                assert(line[i] == drawn[i]);
            }
        }
        text::lemma_pieces_grow(before, line, c);
        text::lemma_pieces_end(before + line, c);
        assert(2 * n - 2 == 2 * (n - 1));
        assert(qr_lines(width, dark, 2 * n) =~= (before + line).push(c));
        assert(text::pieces(before, c).last() + line =~= line);
        let all = text::pieces(qr_lines(width, dark, 2 * n), c);
        assert(all =~= text::pieces(before, c).drop_last().push(line).push(Seq::empty()));
    }
}

//-- Arguments --------------------------------------------------------------------
/// Every port can be given on the command line, with a host or without: a bare port and one
/// behind a colon are both on `localhost`. No other number is a port.
pub proof fn every_port_can_be_given(host: Seq<char>, n: nat)
    requires
        host.len() > 0 ==> !text::white(host[0]),
    ensures
        1 <= n <= 65535 ==> {
            &&& host.len() > 0 ==> upstream_arg(host + ":"@ + text::decimal(n)) == Ok::<
                Seq<char>,
                Seq<char>,
            >(host + ":"@ + text::decimal(n))
            &&& upstream_arg(text::decimal(n)) == Ok::<Seq<char>, Seq<char>>(
                "localhost:"@ + text::decimal(n),
            )
            &&& upstream_arg(":"@ + text::decimal(n)) == Ok::<Seq<char>, Seq<char>>(
                "localhost:"@ + text::decimal(n),
            )
        },
        n == 0 || n > 65535 ==> {
            &&& upstream_arg(host + ":"@ + text::decimal(n)) is Err
            &&& upstream_arg(text::decimal(n)) is Err
        },
{
    reveal_strlit(":");
    reveal_strlit("localhost");
    reveal_strlit("localhost:");
    let port = text::decimal(n);
    text::lemma_decimal(n);
    assert('0' <= port[0] <= '9' && '0' <= port[port.len() - 1] <= '9');
    text::lemma_trimmed(port);
    text::lemma_last_index(port, ':');
    config::every_port_can_be_dialled(host, n);
    config::every_port_can_be_dialled(Seq::empty(), n);
    assert(Seq::<char>::empty() + ":"@ + port =~= ":"@ + port);
    config::lemma_upstream_parts(host, port);
    config::lemma_upstream_parts(Seq::empty(), port);
    lemma_given_as_written(host + ":"@ + port, host.len() as int);
    lemma_given_as_written(":"@ + port, 0);
}

/// With a colon in it, an upstream on the command line is what it is in the config file.
proof fn lemma_given_as_written(s: Seq<char>, at: int)
    requires
        0 <= at < s.len(),
        s[at] == ':',
        !text::white(s[0]),
        !text::white(s.last()),
    ensures
        upstream_arg(s) == config::upstream_of(s),
{
    text::lemma_trimmed(s);
    text::lemma_last_index(s, ':');
}

/// A backend is its URL without slashes at the end; it must be reached over https. Nothing
/// but slashes means the managed one, and so does leaving it out.
pub proof fn backends_are_taken_without_their_slashes(url: Seq<char>, slashes: Seq<char>)
    requires
        url.len() > 0 ==> !text::white(url[0]) && !text::white(url.last()) && url.last() != '/',
        forall|i: int| 0 <= i < slashes.len() ==> #[trigger] slashes[i] == '/',
    ensures
        backend_arg(None) == Ok::<Option<Seq<char>>, Seq<char>>(None),
        url.len() == 0 ==> backend_arg(Some(slashes)) == Ok::<Option<Seq<char>>, Seq<char>>(None),
        url.len() > 0 && "https://"@.is_prefix_of(url) ==> backend_arg(Some(url + slashes)) == Ok::<
            Option<Seq<char>>,
            Seq<char>,
        >(Some(url)),
        url.len() > 0 && !"https://"@.is_prefix_of(url) ==> backend_arg(Some(url + slashes)) is Err,
{
    let raw = url + slashes;
    if raw.len() > 0 {
        assert(raw[0] == if url.len() > 0 {
            url[0]
        } else {
            slashes[0]
        });
        assert(raw.last() == if slashes.len() > 0 {
            slashes[slashes.len() - 1]
        } else {
            url.last()
        });
        text::lemma_trimmed(raw);
    }
    text::trimming_the_end_takes_one_character(raw, '/');
    let left = text::trim_end_of(raw, '/');
    if left.len() > url.len() {
        assert(left.last() == raw[left.len() - 1]);
        assert(raw[left.len() - 1] == slashes[left.len() - 1 - url.len()]);
    } else if left.len() < url.len() {
        assert(raw[url.len() - 1] == url[url.len() - 1]);
    }
    assert(left =~= url);
    assert(url.len() == 0 ==> raw =~= slashes);
}

/// Once the log files were listed again, those are read that come after the current one:
/// all of them, and in their order.
pub proof fn newer_logs_are_those_that_come_after(listed: Seq<String>, path: Seq<char>)
    ensures
        newer(listed, path, listed.len() as int) == listed.filter(
            |name: String| text::text_less(path, name@),
        ),
{
    lemma_newer_filter(listed, path, listed.len() as int);
    assert(listed.take(listed.len() as int) =~= listed);
}

proof fn lemma_newer_filter(listed: Seq<String>, path: Seq<char>, n: int)
    requires
        0 <= n <= listed.len(),
    ensures
        newer(listed, path, n) == listed.take(n).filter(
            |name: String| text::text_less(path, name@),
        ),
    decreases n,
{
    reveal(Seq::filter);
    if n > 0 {
        lemma_newer_filter(listed, path, n - 1);
        assert(listed.take(n).drop_last() =~= listed.take(n - 1));
    }
}

/// An invite is shown by its code and by the QR code of that; a failed request by what went
/// wrong with it.
pub proof fn invites_are_shown_by_their_code(
    code: Seq<char>,
    width: int,
    dark: Seq<bool>,
    share: Seq<char>,
    e: String,
    answer: Response,
)
    ensures
        invite_output(code, width, dark) == "Invite code (valid for 24 hours):\n\n  "@ + code
            + "\n\n"@ + qr_lines(width, dark, qr_rows(width)) + "\n"@,
        request_failure(Asked::NoServer, share) == Some(
            "cannot connect to server for share "@ + share,
        ),
        request_failure(Asked::Failed(e), share) == Some(
            "error sending command to server: "@ + e@,
        ),
        request_failure(Asked::Answered(answer), share) is None,
{
}

/// An invite code is its token and its activation code, each as it is, and the backend's field
/// behind them where there is one.
pub proof fn codes_hold_token_and_activation_code(
    registration_token: Seq<char>,
    activation_code: Seq<char>,
    backend: Seq<char>,
)
    ensures
        wax_code(registration_token, activation_code, None) == "wax_"@ + registration_token + "_"@
            + activation_code,
        wax_code(registration_token, activation_code, Some(backend)) == "wax_"@
            + registration_token + "_"@ + activation_code + "_"@ + backend_field(backend),
        backend_field(backend).len() == base32(encode_utf8(backend)).len(),
        forall|i: int|
            0 <= i < backend_field(backend).len() ==> #[trigger] backend_field(backend)[i]
                == crate::headers::lower_char(base32(encode_utf8(backend))[i]),
{
}

/// A log file is known by what its name starts with, whatever follows.
pub proof fn logs_are_known_by_their_name(rest: Seq<char>, name: Seq<char>)
    ensures
        is_log("waserver.log"@ + rest),
        is_log(name) ==> name == "waserver.log"@ + name.skip(12),
{
    reveal_strlit("waserver.log");
    let whole = "waserver.log"@ + rest;
    assert(whole.subrange(0, 12) =~= "waserver.log"@);
    if is_log(name) {
        assert(name =~= name.subrange(0, 12) + name.skip(12));
    }
}

} // verus!
