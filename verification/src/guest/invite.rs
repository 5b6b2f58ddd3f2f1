//! Invite codes, as a guest reads them.
use crate::guest::transports::Transport;
use crate::server::cli::{backend_field, base32, iroh_code, wax_code};
use crate::text;
use crate::wire::{self, EndpointId, InviteSecret};
use vstd::prelude::*;
use vstd::utf8::encode_utf8;

verus! {

/// What an invite code over Wispers Connect says.
#[derive(Clone, Debug, PartialEq, Eq)]
pub struct WaxInvite {
    pub registration_token: String,
    /// In its native `<node>-<secret>` form.
    pub activation_code: String,
    /// The share's own backend, if it has one.
    pub backend: Option<String>,
}

/// What an invite code says.
#[derive(Clone, Debug, PartialEq, Eq)]
pub enum Invite {
    WispersConnect(WaxInvite),
    /// The share's host is dialled by its key.
    Iroh { endpoint_id: EndpointId, secret: InviteSecret },
}

/// An ASCII letter in upper case; any other character as it is.
pub open spec fn upper_char(c: char) -> char {
    if 'a' <= c <= 'z' {
        ((c as u32) - 32) as char
    } else {
        c
    }
}

/// A text with its ASCII letters in upper case.
pub open spec fn upper(s: Seq<char>) -> Seq<char> {
    s.map_values(|c: char| upper_char(c))
}

fn upper_text(s: &str) -> (r: String)
    ensures
        r@ == upper(s@),
{
    let v = text::chars_of(s);
    let mut out = String::new();
    let mut i: usize = 0;
    while i < v.len()
        invariant
            i <= v@.len(),
            v@ == s@,
            out@ =~= upper(v@.take(i as int)),
        decreases v@.len() - i,
    {
        let c = v[i];
        out.push(
            if 'a' <= c && c <= 'z' {
                ((c as u8) - 32) as char
            } else {
                c
            },
        );
        i = i + 1;
    }
    assert(v@.take(v@.len() as int) =~= v@);
    out
}

/// `data_encoding::BASE32_NOPAD.decode`: the bytes whose base32 encoding the symbols are,
/// or nothing where they are no such encoding.
#[verifier::external_body]
fn base32_decode(symbols: &str) -> (r: Option<Vec<u8>>)
    ensures
        match r {
            Some(bytes) => base32(bytes@) == symbols@,
            None => forall|bytes: Seq<u8>| #[trigger] base32(bytes) != symbols@,
        },
{
    data_encoding::BASE32_NOPAD.decode(symbols.as_bytes()).ok()
}

/// `String::from_utf8` of std: the text that the bytes are the UTF-8 encoding of, or nothing
/// where they are not well formed.
#[verifier::external_body]
fn text_from_utf8(bytes: Vec<u8>) -> (r: Option<String>)
    ensures
        match r {
            Some(s) => encode_utf8(s@) == bytes@,
            None => forall|s: Seq<char>| #[trigger] encode_utf8(s) != bytes@,
        },
{
    String::from_utf8(bytes).ok()
}

/// Whether the field of an invite code names that backend.
pub open spec fn names_backend(field: Seq<char>, backend: Seq<char>) -> bool {
    base32(encode_utf8(backend)) == upper(field)
}

/// Whether a backend is reached safely, and has a host.
pub open spec fn backend_ok(backend: Seq<char>) -> bool {
    "https://"@.is_prefix_of(backend) && backend.len() > "https://"@.len()
}

/// Whether an invite code says that: four fields at most, with the underscore between them.
pub open spec fn says(
    code: Seq<char>,
    registration_token: Seq<char>,
    activation_code: Seq<char>,
    backend: Option<Seq<char>>,
) -> bool {
    let fields = text::pieces(code, '_');
    &&& fields.len() == if backend is Some {
        4nat
    } else {
        3nat
    }
    &&& fields[0] == "wax"@
    &&& fields[1] == registration_token && registration_token.len() > 0
    &&& fields[2] == activation_code && activation_code.len() > 0
    &&& backend matches Some(b) ==> names_backend(fields[3], b) && backend_ok(b)
}

/// What is wrong with an invite code, if anything.
pub open spec fn wax_error(code: Seq<char>) -> Option<Seq<char>> {
    let fields = text::pieces(code, '_');
    if (fields.len() != 3 && fields.len() != 4) || fields[0] != "wax"@ {
        Some("not an invite code"@)
    } else if fields[1].len() == 0 || fields[2].len() == 0 {
        Some("the invite code is incomplete"@)
    } else if fields.len() == 4 && !exists|b: Seq<char>| #[trigger] names_backend(fields[3], b) {
        Some("the invite code's backend cannot be read"@)
    } else if fields.len() == 4 && !exists|b: Seq<char>| #[trigger]
        names_backend(fields[3], b) && backend_ok(b) {
        Some("the invite code's backend must start with https://"@)
    } else {
        None
    }
}

fn read_backend(field: &str) -> (r: Option<String>)
    ensures
        match r {
            Some(backend) => names_backend(field@, backend@),
            None => forall|b: Seq<char>| !#[trigger] names_backend(field@, b),
        },
{
    match base32_decode(upper_text(field).as_str()) {
        Some(bytes) => {
            let ghost encoded = bytes@;
            let r = text_from_utf8(bytes);
            proof {
                if r is None {
                    assert forall|b: Seq<char>| !#[trigger] names_backend(field@, b) by {
                        if names_backend(field@, b) {
                            crate::server::cli::lemma_base32_unique(encode_utf8(b), encoded);
                        }
                    }
                }
            }
            r
        },
        None => None,
    }
}

/// Reads an invite code. One that is not whole, or whose backend is not reached over
/// https, is refused with the reason.
pub fn parse_wax_code(code: &str) -> (r: Result<WaxInvite, String>)
    ensures
        match r {
            Ok(invite) => wax_error(code@) is None && says(
                code@,
                invite.registration_token@,
                invite.activation_code@,
                invite.backend.deep_view(),
            ),
            Err(e) => wax_error(code@) == Some(e@),
        },
{
    let fields = text::split(code, '_');
    let ghost all = text::pieces(code@, '_');
    assert(fields.deep_view() == all);
    assert(forall|i: int| 0 <= i < all.len() ==> all[i] == (#[trigger] fields@[i])@);
    let n: usize = fields.len();
    if (n != 3 && n != 4) || !text::same_text(fields[0].as_str(), "wax") {
        return Err(text::copied("not an invite code"));
    }
    if fields[1].as_str().is_empty() || fields[2].as_str().is_empty() {
        return Err(text::copied("the invite code is incomplete"));
    }
    let backend = if n == 4 {
        match read_backend(fields[3].as_str()) {
            None => {
                return Err(text::copied("the invite code's backend cannot be read"));
            },
            Some(url) => {
                proof {
                    assert forall|b: Seq<char>| #[trigger] names_backend(all[3], b) implies b == url@ by {
                        crate::server::cli::lemma_base32_unique(encode_utf8(b), encode_utf8(url@));
                        vstd::utf8::encode_utf8_decode_utf8(b);
                        vstd::utf8::encode_utf8_decode_utf8(url@);
                    }
                    reveal_strlit("https://");
                }
                if !text::starts_with(url.as_str(), "https://") || url.as_str().as_bytes().len()
                    <= 8 {
                    proof {
                        lemma_only_the_scheme(url@);
                    }
                    return Err(
                        text::copied("the invite code's backend must start with https://"),
                    );
                }
                proof {
                    lemma_only_the_scheme(url@);
                }
                Some(url)
            },
        }
    } else {
        None
    };
    Ok(
        WaxInvite {
            registration_token: text::copied(fields[1].as_str()),
            activation_code: text::copied(fields[2].as_str()),
            backend,
        },
    )
}

/// Whether an invite code is that of an iroh share.
pub open spec fn is_iroh_code(code: Seq<char>) -> bool {
    exists|endpoint_id: Seq<u8>, secret: Seq<u8>|
        endpoint_id.len() == 32 && secret.len() == 16 && #[trigger] iroh_code(endpoint_id, secret)
            == code
}

proof fn lemma_iroh_cut(endpoint_id: Seq<u8>, secret: Seq<u8>)
    ensures
        "wax_iroh_"@.is_prefix_of(iroh_code(endpoint_id, secret)),
        text::cut_first(
            iroh_code(endpoint_id, secret).skip("wax_iroh_"@.len() as int),
            '_',
        ) == Some((wire::hex(endpoint_id), wire::hex(secret))),
{
    reveal_strlit("_");
    let code = iroh_code(endpoint_id, secret);
    let a = wire::hex(endpoint_id);
    let b = wire::hex(secret);
    wire::lemma_hex(endpoint_id);
    assert(code =~= "wax_iroh_"@ + (a + "_"@ + b));
    let rest = code.skip("wax_iroh_"@.len() as int);
    assert(rest =~= a + "_"@ + b);
    text::lemma_first_index(rest, '_');
    let at = a.len() as int;
    assert(rest[at] == '_');
    assert forall|j: int| 0 <= j < at implies rest[j] != '_' by {
        assert(rest[j] == a[j]);
    }
    assert(rest.take(at) =~= a);
    assert(rest.skip(at + 1) =~= b);
}

/// Reads the invite code of an iroh share.
pub fn parse_iroh_code(code: &str) -> (r: Option<(EndpointId, InviteSecret)>)
    ensures
        match r {
            Some((endpoint_id, secret)) => code@ == iroh_code(endpoint_id.0@, secret.0@),
            None => !is_iroh_code(code@),
        },
{
    proof {
        assert forall|endpoint_id: Seq<u8>, secret: Seq<u8>| #[trigger]
            iroh_code(endpoint_id, secret) == code@ implies "wax_iroh_"@.is_prefix_of(code@)
            && text::cut_first(code@.skip("wax_iroh_"@.len() as int), '_') == Some(
            (wire::hex(endpoint_id), wire::hex(secret)),
        ) by {
            lemma_iroh_cut(endpoint_id, secret);
        }
    }
    let rest = match text::strip_prefix(code, "wax_iroh_") {
        Some(rest) => rest,
        None => {
            return None;
        },
    };
    match text::split_once(rest.as_str(), '_') {
        Some((host, key)) => {
            proof {
                reveal_strlit("_");
                text::lemma_first_index(rest@, '_');
                assert(rest@ =~= host@ + "_"@ + key@);
                assert(code@ =~= "wax_iroh_"@ + host@ + "_"@ + key@);
            }
            match (EndpointId::from_hex(host.as_str()), InviteSecret::from_hex(key.as_str())) {
                (Some(endpoint_id), Some(secret)) => Some((endpoint_id, secret)),
                _ => None,
            }
        },
        None => None,
    }
}

/// What is wrong with an invite code of whichever transport, if anything.
pub open spec fn invite_error(code: Seq<char>) -> Option<Seq<char>> {
    if is_iroh_code(code) {
        None
    } else {
        wax_error(code)
    }
}

/// The transport that an invite code names, if it is one.
pub open spec fn invite_transport(code: Seq<char>) -> Transport {
    if is_iroh_code(code) {
        Transport::Iroh
    } else {
        Transport::WispersConnect
    }
}

impl Invite {
    /// The transport that the share is reached over.
    pub open spec fn kind(self) -> Transport {
        match self {
            Invite::WispersConnect(_) => Transport::WispersConnect,
            Invite::Iroh { .. } => Transport::Iroh,
        }
    }

    /// The transport that the share is reached over.
    pub fn transport(&self) -> (r: Transport)
        ensures
            r == self.kind(),
    {
        match self {
            Invite::WispersConnect(_) => Transport::WispersConnect,
            Invite::Iroh { .. } => Transport::Iroh,
        }
    }

    /// Reads an invite code of either transport. One that is neither is refused with the
    /// reason.
    pub fn parse(code: &str) -> (r: Result<Invite, String>)
        ensures
            match r {
                Ok(invite) => invite_error(code@) is None && invite.kind() == invite_transport(
                    code@,
                ) && match invite {
                    Invite::WispersConnect(wax) => says(
                        code@,
                        wax.registration_token@,
                        wax.activation_code@,
                        wax.backend.deep_view(),
                    ),
                    Invite::Iroh { endpoint_id, secret } => code@ == iroh_code(
                        endpoint_id.0@,
                        secret.0@,
                    ),
                },
                Err(e) => invite_error(code@) == Some(e@),
            },
    {
        if let Some((endpoint_id, secret)) = parse_iroh_code(code) {
            return Ok(Invite::Iroh { endpoint_id, secret });
        }
        match parse_wax_code(code) {
            Ok(wax) => Ok(Invite::WispersConnect(wax)),
            Err(e) => Err(e),
        }
    }
}

/// The invite codes of the two transports are never taken for one another.
pub proof fn invite_codes_are_unambiguous(code: Seq<char>)
    ensures
        is_iroh_code(code) ==> wax_error(code) is Some,
        wax_error(code) is None ==> invite_error(code) is None && invite_transport(code)
            == Transport::WispersConnect,
{
    if is_iroh_code(code) {
        let (endpoint_id, secret) = choose|endpoint_id: Seq<u8>, secret: Seq<u8>|
            endpoint_id.len() == 32 && secret.len() == 16 && #[trigger] iroh_code(
                endpoint_id,
                secret,
            ) == code;
        let a = wire::hex(endpoint_id);
        let b = wire::hex(secret);
        reveal_strlit("wax_iroh_");
        reveal_strlit("wax");
        reveal_strlit("iroh");
        reveal_strlit("_");
        wire::lemma_hex(endpoint_id);
        wire::lemma_hex(secret);
        assert(code =~= "wax"@ + "_"@ + ("iroh"@ + "_"@ + (a + "_"@ + b)));
        lemma_pieces_cut("wax"@, "iroh"@ + "_"@ + (a + "_"@ + b));
        lemma_pieces_cut("iroh"@, a + "_"@ + b);
        lemma_pieces_cut(a, b);
        lemma_pieces_cut(b, seq![]);
        let fields = text::pieces(code, '_');
        assert(fields.len() == 4 && fields[3] == b);
        assert forall|url: Seq<char>| #[trigger] names_backend(fields[3], url) implies !backend_ok(
            url,
        ) by {
            if backend_ok(url) {
                reveal_strlit("https://");
                assert(url[0] == url.subrange(0, "https://"@.len() as int)[0]);
                assert(0x68u32 & 0x7f == 0x68) by (bit_vector);
                assert(encode_utf8(url)[0] == vstd::utf8::encode_scalar('h' as u32)[0]);
                crate::server::cli::lemma_base32_of_h(encode_utf8(url));
                assert(upper(b)[0] == upper_char(b[0]));
            }
        }
    }
}

/// The invite code of an iroh share says to its guest what the host put in, and nothing else.
pub proof fn iroh_codes_round_trip(
    endpoint_id: EndpointId,
    secret: InviteSecret,
    other_id: EndpointId,
    other: InviteSecret,
)
    ensures
        invite_error(iroh_code(endpoint_id.0@, secret.0@)) is None,
        invite_transport(iroh_code(endpoint_id.0@, secret.0@)) == Transport::Iroh,
        iroh_code(other_id.0@, other.0@) == iroh_code(endpoint_id.0@, secret.0@) ==> other_id
            == endpoint_id && other == secret,
{
    let code = iroh_code(endpoint_id.0@, secret.0@);
    assert(is_iroh_code(code));
    lemma_iroh_cut(endpoint_id.0@, secret.0@);
    if iroh_code(other_id.0@, other.0@) == code {
        lemma_iroh_cut(other_id.0@, other.0@);
        wire::hex_is_unambiguous(endpoint_id.0@, other_id.0@);
        wire::hex_is_unambiguous(secret.0@, other.0@);
        assert(other_id.0 =~= endpoint_id.0);
        assert(other.0 =~= secret.0);
    }
}

/// A URL that starts with its scheme and has no more bytes than it is the scheme alone.
proof fn lemma_only_the_scheme(url: Seq<char>)
    ensures
        "https://"@.is_prefix_of(url) ==> (encode_utf8(url).len() <= 8 <==> url.len()
            <= "https://"@.len()),
{
    reveal_strlit("https://");
    if "https://"@.is_prefix_of(url) {
        if url.len() <= 8 {
            assert(url =~= "https://"@);
            assert(vstd::utf8::is_ascii_chars(url));
            vstd::utf8::is_ascii_chars_encode_utf8(url);
        } else {
            lemma_bytes_at_least_chars(url);
        }
    }
}

proof fn lemma_bytes_at_least_chars(s: Seq<char>)
    ensures
        encode_utf8(s).len() >= s.len(),
    decreases s.len(),
{
    reveal_with_fuel(encode_utf8, 2);
    if s.len() > 0 {
        lemma_bytes_at_least_chars(s.drop_first());
    }
}

proof fn lemma_pieces_cut(a: Seq<char>, b: Seq<char>)
    requires
        forall|i: int| 0 <= i < a.len() ==> #[trigger] a[i] != '_',
    ensures
        text::pieces(a + "_"@ + b, '_') == seq![a] + text::pieces(b, '_'),
        text::pieces(a, '_') == seq![a],
{
    reveal_strlit("_");
    let s = a + "_"@ + b;
    text::lemma_first_index(s, '_');
    text::lemma_first_index(a, '_');
    let at = a.len() as int;
    assert(s[at] == '_');
    assert forall|j: int| 0 <= j < at implies s[j] != '_' by {
        assert(s[j] == a[j]);
    }
    assert(s.take(at) =~= a);
    assert(s.skip(at + 1) =~= b);
}

/// An invite code that a host composed says to its guest what the host put in.
pub proof fn wax_codes_round_trip(
    registration_token: Seq<char>,
    activation_code: Seq<char>,
    backend: Option<Seq<char>>,
)
    requires
        registration_token.len() > 0,
        activation_code.len() > 0,
        forall|i: int| 0 <= i < registration_token.len() ==> #[trigger] registration_token[i] != '_',
        forall|i: int| 0 <= i < activation_code.len() ==> #[trigger] activation_code[i] != '_',
        backend matches Some(b) ==> backend_ok(b),
    ensures
        says(
            wax_code(registration_token, activation_code, backend),
            registration_token,
            activation_code,
            backend,
        ),
        wax_error(wax_code(registration_token, activation_code, backend)) is None,
{
    reveal_strlit("wax");
    reveal_strlit("wax_");
    reveal_strlit("_");
    let code = wax_code(registration_token, activation_code, backend);
    let tail = match backend {
        Some(b) => activation_code + "_"@ + backend_field(b),
        None => activation_code,
    };
    assert(code =~= "wax"@ + "_"@ + (registration_token + "_"@ + tail));
    lemma_pieces_cut("wax"@, registration_token + "_"@ + tail);
    lemma_pieces_cut(registration_token, tail);
    match backend {
        Some(b) => {
            let field = backend_field(b);
            assert forall|i: int| 0 <= i < field.len() implies #[trigger] field[i] != '_' by {
                crate::server::cli::backend_field_has_no_delimiter(b, i);
            }
            lemma_pieces_cut(activation_code, field);
            lemma_pieces_cut(field, seq![]);
            crate::server::cli::lemma_upper_field(b);
            assert(upper(field) =~= base32(encode_utf8(b)));
            assert(names_backend(text::pieces(code, '_')[3], b));
        },
        None => {
            lemma_pieces_cut(activation_code, seq![]);
        },
    }
}

/// An invite code is made up of what it says: the registration token and the activation code,
/// and the backend's field where it has one, with underscores between them.
pub proof fn invite_codes_are_made_of_what_they_say(
    code: Seq<char>,
    registration_token: Seq<char>,
    activation_code: Seq<char>,
    backend: Option<Seq<char>>,
)
    requires
        says(code, registration_token, activation_code, backend),
    ensures
        registration_token.len() > 0,
        activation_code.len() > 0,
        backend is None ==> code == "wax_"@ + registration_token + "_"@ + activation_code,
        backend matches Some(b) ==> exists|field: Seq<char>|
            code == #[trigger] ("wax_"@ + registration_token + "_"@ + activation_code + "_"@
                + field) && base32(encode_utf8(b)) == upper(field) && "https://"@.is_prefix_of(b)
                && b.len() > 8,
{
    reveal_strlit("wax");
    reveal_strlit("wax_");
    reveal_strlit("_");
    reveal_strlit("https://");
    let fields = text::pieces(code, '_');
    let sep = seq!['_'];
    text::pieces_make_up_the_text(code, '_');
    assert("_"@ =~= sep);
    assert("wax"@ + sep =~= "wax_"@);
    let three = seq!["wax"@, registration_token, activation_code];
    lemma_joined_three("wax"@, registration_token, activation_code, sep);
    match backend {
        None => {
            assert(fields =~= three);
        },
        Some(b) => {
            let field = fields[3];
            assert(fields =~= three.push(field));
            assert(three.push(field).drop_last() =~= three);
            assert(text::joined(three.push(field), sep) == text::joined(three, sep) + sep + field);
            assert(code == "wax_"@ + registration_token + "_"@ + activation_code + "_"@ + field);
        },
    }
}

proof fn lemma_joined_three(a: Seq<char>, b: Seq<char>, c: Seq<char>, sep: Seq<char>)
    ensures
        text::joined(seq![a, b, c], sep) == a + sep + b + sep + c,
{
    assert(seq![a, b, c].drop_last() =~= seq![a, b]);
    assert(seq![a, b].drop_last() =~= seq![a]);
    assert(text::joined(seq![a], sep) == a);
    assert(text::joined(seq![a, b], sep) == a + sep + b);
}

/// Every code that is whole is read: the prefix, a token and an activation code, neither of
/// them empty, and at most the field of a backend that is reached over https. Anything else
/// is refused.
pub proof fn whole_codes_are_read(code: Seq<char>)
    ensures
        wax_error(code) is None <==> {
            let fields = text::pieces(code, '_');
            &&& fields.len() == 3 || fields.len() == 4
            &&& fields[0] == "wax"@
            &&& fields[1].len() > 0
            &&& fields[2].len() > 0
            &&& fields.len() == 4 ==> exists|b: Seq<char>|
                #![trigger encode_utf8(b)]
                base32(encode_utf8(b)) == upper(fields[3]) && "https://"@.is_prefix_of(b) && b.len()
                    > 8
        },
{
    reveal_strlit("https://");
    let fields = text::pieces(code, '_');
    if fields.len() == 4 {
        if exists|b: Seq<char>| #[trigger] names_backend(fields[3], b) && backend_ok(b) {
            let b = choose|b: Seq<char>| #[trigger] names_backend(fields[3], b) && backend_ok(b);
            assert(base32(encode_utf8(b)) == upper(fields[3]));
        }
        if exists|b: Seq<char>|
            #![trigger encode_utf8(b)]
            base32(encode_utf8(b)) == upper(fields[3]) && "https://"@.is_prefix_of(b) && b.len()
                > 8 {
            let b = choose|b: Seq<char>|
                #![trigger encode_utf8(b)]
                base32(encode_utf8(b)) == upper(fields[3]) && "https://"@.is_prefix_of(b) && b.len()
                    > 8;
            assert(names_backend(fields[3], b) && backend_ok(b));
        }
    }
}

/// A backend's field is read whatever the case of its letters, as a code that was typed or
/// scanned may have it.
pub proof fn fields_are_read_in_either_case(field: Seq<char>, other: Seq<char>, backend: Seq<char>)
    requires
        field.len() == other.len(),
        forall|i: int|
            0 <= i < field.len() ==> (#[trigger] field[i] == other[i]) || ('a' <= field[i] <= 'z'
                && other[i] as u32 + 32 == field[i] as u32) || ('A' <= field[i] <= 'Z'
                && other[i] as u32 == field[i] as u32 + 32),
    ensures
        names_backend(field, backend) <==> names_backend(other, backend),
{
    assert forall|i: int| 0 <= i < field.len() implies upper_char(#[trigger] field[i])
        == upper_char(other[i]) by {}
    assert(upper(field) =~= upper(other));
}

} // verus!
