//! The wire contract between guests and the host node.
//!
//! Every stream a guest opens starts with one [`StreamType`] byte:
//!
//! - [`StreamType::Data`] for the data plane. One length-prefixed
//!   [`HttpPreamble`] naming the share, then a raw HTTP/1.1 request for that
//!   share's app, answered in raw HTTP.
//! - [`StreamType::Ctrl`] for the control plane. A raw HTTP/1.1 request to the
//!   guest API (the `/v1/...` routes below), answered in raw HTTP.
//!
//! Streams whose first byte is an ASCII letter are raw HTTP requests for the
//! default share from clients that predate this framing.
use crate::bytes;
use crate::text;
use vstd::prelude::*;

verus! {

/// The first byte of a stream.
#[derive(Clone, Copy, Debug, PartialEq, Eq, Structural)]
pub enum StreamType {
    Data,
    Ctrl,
}

impl StreamType {
    /// The byte that opens a stream of this type.
    pub open spec fn byte(self) -> u8 {
        match self {
            StreamType::Data => 0x00u8,
            StreamType::Ctrl => 0x01u8,
        }
    }
}

/// What the first byte of a stream says about the rest.
#[derive(Clone, Copy, Debug, PartialEq, Eq, Structural)]
pub enum FirstByte {
    Typed(StreamType),
    LegacyHttp,
    Unknown(u8),
}

/// Whether `b` is an ASCII letter, as the first byte of every HTTP method is.
pub open spec fn ascii_letter(b: u8) -> bool {
    (0x41 <= b && b <= 0x5a) || (0x61 <= b && b <= 0x7a)
}

/// What a stream that starts with `first` is.
pub open spec fn first_byte_class(first: u8) -> FirstByte {
    if first == 0x00 {
        FirstByte::Typed(StreamType::Data)
    } else if first == 0x01 {
        FirstByte::Typed(StreamType::Ctrl)
    } else if ascii_letter(first) {
        FirstByte::LegacyHttp
    } else {
        FirstByte::Unknown(first)
    }
}

impl vstd::std_specs::convert::FromSpecImpl<u8> for FirstByte {
    open spec fn obeys_from_spec() -> bool {
        true
    }

    open spec fn from_spec(first: u8) -> FirstByte {
        first_byte_class(first)
    }
}

impl From<u8> for FirstByte {
    fn from(first: u8) -> (r: FirstByte) {
        if first == 0x00 {
            FirstByte::Typed(StreamType::Data)
        } else if first == 0x01 {
            FirstByte::Typed(StreamType::Ctrl)
        } else if (0x41 <= first && first <= 0x5a) || (0x61 <= first && first <= 0x7a) {
            // Every HTTP method starts with an ASCII letter.
            FirstByte::LegacyHttp
        } else {
            FirstByte::Unknown(first)
        }
    }
}

/// The type byte that opens a stream.
pub fn write_stream_type(t: StreamType) -> (r: Vec<u8>)
    ensures
        r@ == seq![t.byte()],
{
    let b: u8 = match t {
        StreamType::Data => 0x00,
        StreamType::Ctrl => 0x01,
    };
    let mut r: Vec<u8> = Vec::new();
    r.push(b);
    assert(r@ =~= seq![t.byte()]);
    r
}

/// Reading the byte that opens a stream gives back the stream's type.
pub proof fn stream_type_round_trips(t: StreamType)
    ensures
        first_byte_class(t.byte()) == FirstByte::Typed(t),
{
}

/// Only the two type bytes open a typed stream: a legacy HTTP request is never
/// taken for one.
pub proof fn typed_streams_are_unambiguous(first: u8, t: StreamType)
    ensures
        first_byte_class(first) == FirstByte::Typed(t) <==> first == t.byte(),
        ascii_letter(first) <==> first_byte_class(first) is LegacyHttp,
{
}

//-- DATA streams -----------------------------------------------------------------
/// Preamble of a DATA stream: which of the circle's shares the request that
/// follows is for.
#[derive(Clone, Debug, PartialEq, Eq)]
pub struct HttpPreamble {
    pub share_id: String,
}

/// The letter of the short escape that JSON has for a character.
pub open spec fn short_escape(c: char) -> Option<char> {
    if c == '"' || c == '\\' {
        Some(c)
    } else if c == '\u{8}' {
        Some('b')
    } else if c == '\t' {
        Some('t')
    } else if c == '\n' {
        Some('n')
    } else if c == '\u{c}' {
        Some('f')
    } else if c == '\r' {
        Some('r')
    } else {
        None
    }
}

/// How a character stands in a JSON string literal: the quote, the backslash
/// and the control characters escaped, any other as it is.
pub open spec fn json_char(c: char) -> Seq<char> {
    match short_escape(c) {
        Some(letter) => "\\"@.push(letter),
        None => if c <= '\u{1f}' {
            "\\u"@ + text::hex_digits(c as nat, 4)
        } else {
            seq![c]
        },
    }
}

/// The characters of a JSON string literal, between its quotes.
pub open spec fn json_chars(s: Seq<char>) -> Seq<char>
    decreases s.len(),
{
    if s.len() == 0 {
        Seq::empty()
    } else {
        json_chars(s.drop_last()) + json_char(s.last())
    }
}

/// A text as a JSON string literal.
pub open spec fn json_string(s: Seq<char>) -> Seq<char> {
    seq!['"'] + json_chars(s) + seq!['"']
}

/// `serde_json::to_string` on a `str`: the text as a JSON string literal, with
/// a short escape where JSON has one for a control character.
#[verifier::external_body]
pub(crate) fn to_json_string(s: &str) -> (r: String)
    ensures
        r@ == json_string(s@),
{
    serde_json::to_string(s).unwrap_or_default()
}

impl HttpPreamble {
    /// The preamble as the JSON object that is framed on the stream.
    pub open spec fn json(self) -> Seq<char> {
        "{\"share_id\":"@ + json_string(self.share_id@) + "}"@
    }

    /// The preamble as JSON text.
    pub fn to_json(&self) -> (r: String)
        ensures
            r@ == self.json(),
    {
        let mut out = text::copied("{\"share_id\":");
        out.append(to_json_string(self.share_id.as_str()).as_str());
        out.append("}");
        out
    }
}


//-- The guest API, over CTRL streams ---------------------------------------------
/// `GET /v1/circle`: the circle as the guest may know it, as JSON
/// [`CircleInfo`]. The response carries an `ETag` of the config hash; a request
/// with a matching `If-None-Match` gets 304 and no body.
pub const CIRCLE_PATH: &'static str = "/v1/circle";

/// `GET /v1/events`: a long-lived `text/event-stream`. Each event is named after
/// its type and carries that type as JSON data.
pub const EVENTS_PATH: &'static str = "/v1/events";

/// `GET /v1/share`: the share as the guest may know it, as JSON [`ShareInfo`]. The
/// response carries an `ETag` of the config hash; a request with a matching
/// `If-None-Match` gets 304 and no body.
pub const SHARE_PATH: &'static str = "/v1/share";

/// `POST /v1/activation`: redeems an invite, binding the peer's key to the share.
pub const ACTIVATION_PATH: &'static str = "/v1/activation";

/// `DELETE /v1/guest`: the guest leaves the share.
pub const GUEST_PATH: &'static str = "/v1/guest";

pub const EVENT_CIRCLE_CHANGED: &'static str = "circle-changed";

/// What a guest may know about a circle.
#[derive(Clone, Debug, PartialEq, Eq)]
pub struct CircleInfo {
    /// Hash of everything below. Equal hashes mean an unchanged circle.
    pub config_hash: ConfigHash,
    /// Display name of the circle.
    pub name: String,
    /// The transport this circle rides, e.g. `wispers-connect`.
    pub transport: String,
    pub shares: Vec<Share>,
}

#[derive(Clone, Debug, PartialEq, Eq)]
pub struct Share {
    /// Stable key; what a guest persists and sends in [`HttpPreamble`].
    pub id: String,
    /// Display name.
    pub name: String,
    pub kind: ShareKind,
}

/// The shared thing is called an app by the host's config.
pub type SharedApp = Share;

/// What a guest may know about a share and its apps: what `GET /v1/share` answers.
#[derive(Clone, Debug, PartialEq, Eq)]
pub struct ShareInfo {
    /// Hash of everything below. Equal hashes mean an unchanged share.
    pub config_hash: ConfigHash,
    /// Display name of the share.
    pub name: String,
    /// The transport this share rides, e.g. `wispers-connect`.
    pub transport: String,
    pub apps: Vec<SharedApp>,
}

impl Share {
    /// The entry as a JSON object.
    pub open spec fn json(self) -> Seq<char> {
        "{\"id\":"@ + json_string(self.id@) + ",\"name\":"@ + json_string(self.name@)
            + ",\"kind\":\""@ + self.kind.name() + "\"}"@
    }

    /// The entry as JSON text.
    pub fn to_json(&self) -> (r: String)
        ensures
            r@ == self.json(),
    {
        let mut out = text::copied("{\"id\":");
        out.append(to_json_string(self.id.as_str()).as_str());
        out.append(",\"name\":");
        out.append(to_json_string(self.name.as_str()).as_str());
        out.append(",\"kind\":\"");
        out.append(self.kind.as_str());
        out.append("\"}");
        out
    }

    /// A copy of the entry.
    pub fn copied(&self) -> (r: Share)
        ensures
            r.id@ == self.id@,
            r.name@ == self.name@,
            r.kind == self.kind,
    {
        Share {
            id: text::copied(self.id.as_str()),
            name: text::copied(self.name.as_str()),
            kind: self.kind,
        }
    }
}

/// How an info starts as a JSON object: with all but its list.
pub open spec fn info_head(config_hash: ConfigHash, name: Seq<char>, transport: Seq<char>) -> Seq<
    char,
> {
    "{\"config_hash\":\""@ + config_hash.digits() + "\",\"name\":"@ + json_string(name)
        + ",\"transport\":"@ + json_string(transport)
}

/// A list of an info, under the given name.
pub open spec fn info_list(list: Seq<char>, entries: Seq<Share>) -> Seq<char> {
    ",\""@ + list + "\":["@ + text::joined(entries.map_values(|e: Share| e.json()), ","@) + "]"@
}

fn push_info_head(out: &mut String, config_hash: ConfigHash, name: &str, transport: &str)
    ensures
        final(out)@ == old(out)@ + info_head(config_hash, name@, transport@),
{
    out.append("{\"config_hash\":\"");
    out.append(config_hash.to_hex().as_str());
    out.append("\",\"name\":");
    out.append(to_json_string(name).as_str());
    out.append(",\"transport\":");
    out.append(to_json_string(transport).as_str());
    assert(out@ =~= old(out)@ + info_head(config_hash, name@, transport@));
}

fn push_info_list(out: &mut String, list: &str, entries: &Vec<Share>)
    ensures
        final(out)@ == old(out)@ + info_list(list@, entries@),
{
    let mut parts: Vec<String> = Vec::new();
    let mut i: usize = 0;
    while i < entries.len()
        invariant
            i <= entries@.len(),
            parts@.len() == i,
            forall|j: int| 0 <= j < i ==> (#[trigger] parts@[j])@ == entries@[j].json(),
        decreases entries@.len() - i,
    {
        parts.push(entries[i].to_json());
        i = i + 1;
    }
    assert(parts.deep_view() =~= entries@.map_values(|e: Share| e.json()));
    out.append(",\"");
    out.append(list);
    out.append("\":[");
    out.append(text::join(&parts, ",").as_str());
    out.append("]");
    assert(out@ =~= old(out)@ + info_list(list@, entries@));
}

impl CircleInfo {
    pub open spec fn json(self) -> Seq<char> {
        info_head(self.config_hash, self.name@, self.transport@) + info_list(
            "shares"@,
            self.shares@,
        ) + "}"@
    }

    /// The circle as JSON text.
    pub fn to_json(&self) -> (r: String)
        ensures
            r@ == self.json(),
    {
        let mut out = String::new();
        push_info_head(&mut out, self.config_hash, self.name.as_str(), self.transport.as_str());
        push_info_list(&mut out, "shares", &self.shares);
        out.append("}");
        assert(out@ =~= self.json());
        out
    }
}

impl ShareInfo {
    pub open spec fn json(self) -> Seq<char> {
        info_head(self.config_hash, self.name@, self.transport@) + info_list("apps"@, self.apps@)
            + "}"@
    }

    /// The share as JSON text.
    pub fn to_json(&self) -> (r: String)
        ensures
            r@ == self.json(),
    {
        let mut out = String::new();
        push_info_head(&mut out, self.config_hash, self.name.as_str(), self.transport.as_str());
        push_info_list(&mut out, "apps", &self.apps);
        out.append("}");
        assert(out@ =~= self.json());
        out
    }

    /// The answer to an activation as a JSON object: it has the list under both of its names,
    /// so it reads as a [`CircleInfo`] and as a [`ShareInfo`].
    pub open spec fn activation_json(self) -> Seq<char> {
        info_head(self.config_hash, self.name@, self.transport@) + info_list(
            "shares"@,
            self.apps@,
        ) + info_list("apps"@, self.apps@) + "}"@
    }

    /// The answer to an activation as JSON text.
    pub fn to_activation_json(&self) -> (r: String)
        ensures
            r@ == self.activation_json(),
    {
        let mut out = String::new();
        push_info_head(&mut out, self.config_hash, self.name.as_str(), self.transport.as_str());
        push_info_list(&mut out, "shares", &self.apps);
        push_info_list(&mut out, "apps", &self.apps);
        out.append("}");
        assert(out@ =~= self.activation_json());
        out
    }
}

/// What a share is: a generic web app, or one of the apps that integrating
/// clients know how to talk to. Extended per integration; a value is never
/// renamed. The same vocabulary as the host's config file.
#[derive(Clone, Copy, Debug, PartialEq, Eq, Structural)]
pub enum ShareKind {
    Web,
    Jellyfin,
    Immich,
}

/// The shared thing is called an app by the host's config.
pub type AppKind = ShareKind;

impl Default for ShareKind {
    fn default() -> (r: ShareKind)
        ensures
            r == ShareKind::Web,
    {
        ShareKind::Web
    }
}

impl ShareKind {
    /// The name a kind has in the config file, in messages and in storage.
    pub open spec fn name(self) -> Seq<char> {
        match self {
            ShareKind::Web => "web"@,
            ShareKind::Jellyfin => "jellyfin"@,
            ShareKind::Immich => "immich"@,
        }
    }

    pub fn as_str(self) -> (r: &'static str)
        ensures
            r@ == self.name(),
    {
        match self {
            ShareKind::Web => "web",
            ShareKind::Jellyfin => "jellyfin",
            ShareKind::Immich => "immich",
        }
    }

    /// The kind of that name. There is none for an unknown name.
    pub open spec fn named(s: Seq<char>) -> Option<ShareKind> {
        if s == "web"@ {
            Some(ShareKind::Web)
        } else if s == "jellyfin"@ {
            Some(ShareKind::Jellyfin)
        } else if s == "immich"@ {
            Some(ShareKind::Immich)
        } else {
            None
        }
    }

    /// Reads back what [`ShareKind::as_str`] wrote.
    pub fn parse(s: &str) -> (r: Option<ShareKind>)
        ensures
            r == ShareKind::named(s@),
    {
        if text::same_text(s, "web") {
            Some(ShareKind::Web)
        } else if text::same_text(s, "jellyfin") {
            Some(ShareKind::Jellyfin)
        } else if text::same_text(s, "immich") {
            Some(ShareKind::Immich)
        } else {
            None
        }
    }
}

/// A kind's name reads back as that kind.
pub proof fn share_kind_round_trips(kind: ShareKind)
    ensures
        ShareKind::named(kind.name()) == Some(kind),
{
    reveal_strlit("web");
    reveal_strlit("jellyfin");
    reveal_strlit("immich");
    assert("web"@.len() == 3);
    assert("jellyfin"@.len() == 8);
    assert("immich"@.len() == 6);
}

/// Data of a `circle-changed` event. Carries no diff: the guest fetches.
#[derive(Clone, Debug, PartialEq, Eq)]
pub struct CircleChanged {
    pub config_hash: ConfigHash,
}

impl CircleChanged {
    pub open spec fn json(self) -> Seq<char> {
        "{\"config_hash\":\""@ + self.config_hash.digits() + "\"}"@
    }

    /// The event's data as JSON text.
    pub fn to_json(&self) -> (r: String)
        ensures
            r@ == self.json(),
    {
        let mut out = text::copied("{\"config_hash\":\"");
        out.append(self.config_hash.to_hex().as_str());
        out.append("\"}");
        out
    }
}

/// A 64-bit hash, carried as 16 hex digits so that JavaScript readers keep every
/// bit. Doubles as the `ETag` of `GET /v1/circle`.
#[derive(Clone, Copy, Debug, PartialEq, Eq, Hash, Structural)]
pub struct ConfigHash(pub u64);

/// Why a text is not a [`ConfigHash`].
#[derive(Clone, Copy, Debug, PartialEq, Eq, Structural)]
pub enum ConfigHashError {
    NotHex,
}

impl Default for ConfigHash {
    fn default() -> (r: ConfigHash)
        ensures
            r == ConfigHash(0),
    {
        ConfigHash(0)
    }
}

impl ConfigHash {
    /// The hash as sixteen hexadecimal digits.
    pub open spec fn digits(self) -> Seq<char> {
        text::hex_digits(self.0 as nat, 16)
    }

    /// The strong entity tag of the hash: the digits in double quotes.
    pub open spec fn tag(self) -> Seq<char> {
        seq!['"'] + self.digits() + seq!['"']
    }

    /// The hash that `s` writes in hexadecimal.
    pub open spec fn written(s: Seq<char>) -> Option<ConfigHash> {
        match text::parsed_number(s, 16, u64::MAX as nat) {
            Some(n) => Some(ConfigHash(n as u64)),
            None => None,
        }
    }

    /// Whether one entity tag of an `If-None-Match` value names this hash: the
    /// wildcard, the tag itself, or its weak form.
    pub open spec fn named_by(self, entry: Seq<char>) -> bool {
        let tag = text::trimmed(entry);
        ||| tag == "*"@
        ||| tag == self.tag()
        ||| ("W/"@.is_prefix_of(tag) && tag.skip("W/"@.len() as int) == self.tag())
    }

    /// Whether an `If-None-Match` value names this hash in one of its entries.
    pub open spec fn in_if_none_match(self, header: Seq<char>) -> bool {
        exists|i: int|
            0 <= i < text::pieces(header, ',').len() && self.named_by(
                #[trigger] text::pieces(header, ',')[i],
            )
    }

    /// The hash as sixteen hexadecimal digits.
    pub fn to_hex(self) -> (r: String)
        ensures
            r@ == self.digits(),
    {
        let mut out = String::new();
        text::push_hex(&mut out, self.0, 16);
        assert(out@ =~= self.digits());
        out
    }

    /// Reads the hash that [`ConfigHash::to_hex`] writes.
    pub fn from_hex(s: &str) -> (r: Option<ConfigHash>)
        ensures
            r == ConfigHash::written(s@),
    {
        match text::parse_number(s, 16, u64::MAX) {
            Some(n) => Some(ConfigHash(n)),
            None => None,
        }
    }

    /// The strong entity tag form, `"0123456789abcdef"`.
    pub fn etag(self) -> (r: String)
        ensures
            r@ == self.tag(),
    {
        let mut out = String::new();
        out.push('"');
        text::push_hex(&mut out, self.0, 16);
        out.push('"');
        assert(out@ =~= self.tag());
        out
    }

    /// Parses an `If-None-Match` value: one or more entity tags, or `*`.
    pub fn matches_if_none_match(self, header: &str) -> (r: bool)
        ensures
            r == self.in_if_none_match(header@),
    {
        let mine = self.etag();
        let entries = text::split(header, ',');
        let ghost all = text::pieces(header@, ',');
        let mut i: usize = 0;
        while i < entries.len()
            invariant
                i <= entries@.len(),
                mine@ == self.tag(),
                all == text::pieces(header@, ','),
                entries.deep_view() == all,
                forall|j: int| 0 <= j < i ==> !self.named_by(#[trigger] all[j]),
            decreases entries@.len() - i,
        {
            assert(entries.deep_view()[i as int] == entries@[i as int]@);
            let tag = text::trim(entries[i].as_str());
            let named = text::same_text(tag.as_str(), "*") || text::same_text(
                tag.as_str(),
                mine.as_str(),
            ) || match text::strip_prefix(tag.as_str(), "W/") {
                Some(rest) => text::same_text(rest.as_str(), mine.as_str()),
                None => false,
            };
            if named {
                return true;
            }
            i = i + 1;
        }
        false
    }
}

impl std::str::FromStr for ConfigHash {
    type Err = ConfigHashError;

    fn from_str(s: &str) -> (r: Result<ConfigHash, ConfigHashError>)
        ensures
            r == (match ConfigHash::written(s@) {
                Some(h) => Ok::<ConfigHash, ConfigHashError>(h),
                None => Err::<ConfigHash, ConfigHashError>(ConfigHashError::NotHex),
            }),
    {
        match ConfigHash::from_hex(s) {
            Some(h) => Ok(h),
            None => Err(ConfigHashError::NotHex),
        }
    }
}

/// How many values `width` hexadecimal digits write.
pub open spec fn hex_span(width: nat) -> nat
    decreases width,
{
    if width == 0 {
        1
    } else {
        16 * hex_span((width - 1) as nat)
    }
}

proof fn lemma_hex_value(n: nat, width: nat)
    ensures
        hex_span(width) > 0,
        text::hex_digits(n, width).len() == width,
        text::digits_value(text::hex_digits(n, width), 16) == Some(n % hex_span(width)),
        forall|i: int|
            0 <= i < width ==> text::digit_value(#[trigger] text::hex_digits(n, width)[i], 16) is Some,
    decreases width,
{
    if width > 0 {
        let w = (width - 1) as nat;
        lemma_hex_value(n / 16, w);
        let all = text::hex_digits(n, width);
        assert(all.drop_last() =~= text::hex_digits(n / 16, w));
        assert(text::digit_value(all.last(), 16) == Some(n % 16));
        vstd::arithmetic::div_mod::lemma_mod_breakdown(n as int, 16, hex_span(w) as int);
    }
}

/// A hash reads back from its sixteen digits.
pub proof fn config_hash_round_trips(h: ConfigHash)
    ensures
        h.digits().len() == 16,
        ConfigHash::written(h.digits()) == Some(h),
{
    lemma_hex_value(h.0 as nat, 16);
    assert(hex_span(16) == 0x1_0000_0000_0000_0000) by {
        reveal_with_fuel(hex_span, 17);
    }
    vstd::arithmetic::div_mod::lemma_small_mod(h.0 as nat, 0x1_0000_0000_0000_0000);
    assert(text::digit_value('+', 16) is None);
    assert(h.digits()[0] != '+');
}

/// An entity tag names the hash it was made from and no other; the wildcard names
/// every hash.
pub proof fn etag_names_only_its_hash(h: ConfigHash, other: ConfigHash)
    ensures
        h.in_if_none_match(other.tag()) <==> h == other,
        h.in_if_none_match("*"@),
{
    let tag = other.tag();
    config_hash_round_trips(h);
    config_hash_round_trips(other);
    lemma_hex_value(other.0 as nat, 16);
    assert(text::digit_value(',', 16) is None);
    assert(forall|i: int| 0 <= i < 16 ==> tag[i + 1] == other.digits()[i]);
    assert forall|i: int| 0 <= i < tag.len() implies tag[i] != ',' by {
        if 1 <= i < 17 {
            assert(tag[i] == other.digits()[i - 1]);
        }
    }
    text::lemma_first_index(tag, ',');
    assert(text::pieces(tag, ',') =~= seq![tag]);
    assert(text::trimmed(tag) == tag);
    reveal_strlit("*");
    reveal_strlit("W/");
    assert("*"@.len() == 1);
    assert("W/"@.len() == 2);
    assert("W/"@[0] == 'W');
    assert(tag[0] == '"');
    assert(!("W/"@.is_prefix_of(tag))) by {
        if "W/"@.is_prefix_of(tag) {
            assert(tag.subrange(0, 2)[0] == "W/"@[0]);
        }
    }
    if h.tag() == tag {
        assert(h.digits() =~= h.tag().subrange(1, 17));
        assert(other.digits() =~= tag.subrange(1, 17));
    }
    assert(text::pieces(tag, ',')[0] == tag);
    let star = "*"@;
    text::lemma_first_index(star, ',');
    assert(text::pieces(star, ',') =~= seq![star]);
    assert(text::trimmed(star) == star);
    assert(text::pieces(star, ',')[0] == star);
}

//-- Framing ----------------------------------------------------------------------
/// Upper bound on one framed message. Preambles are small; anything larger is a
/// broken or hostile peer.
pub const MAX_MESSAGE_LEN: u32 = 65536;

#[derive(Clone, Debug, PartialEq, Eq)]
pub enum FrameError {
    /// The stream failed, or ended inside a message.
    Io(String),
    TooLong(u32),
    /// The message is not the JSON of what was expected.
    Decode(String),
}

impl FrameError {
    pub open spec fn text(self) -> Seq<char> {
        match self {
            FrameError::Io(why) => "io: "@ + why@,
            FrameError::TooLong(n) => "message of "@ + text::decimal(n as nat)
                + " bytes exceeds the 65536 byte limit"@,
            FrameError::Decode(why) => "malformed message: "@ + why@,
        }
    }

    /// The error as a line of text.
    pub fn message(&self) -> (r: String)
        ensures
            r@ == self.text(),
    {
        match self {
            FrameError::Io(why) => {
                let mut out = text::copied("io: ");
                out.append(why.as_str());
                out
            },
            FrameError::TooLong(n) => {
                let mut out = text::copied("message of ");
                text::push_decimal(&mut out, *n as u64);
                out.append(" bytes exceeds the 65536 byte limit");
                out
            },
            FrameError::Decode(why) => {
                let mut out = text::copied("malformed message: ");
                out.append(why.as_str());
                out
            },
        }
    }
}

/// `n` as four bytes, the most significant first.
pub open spec fn be_bytes(n: u32) -> Seq<u8> {
    seq![
        (n / 0x1000000) as u8,
        ((n / 0x10000) % 0x100) as u8,
        ((n / 0x100) % 0x100) as u8,
        (n % 0x100) as u8,
    ]
}

/// The number that four bytes write, the most significant first.
pub open spec fn be_value(b: Seq<u8>) -> int {
    b[0] * 0x1000000 + b[1] * 0x10000 + b[2] * 0x100 + b[3]
}

/// A message of that body as it goes over a stream: big-endian u32 length, then
/// the body.
pub open spec fn framed(body: Seq<u8>) -> Seq<u8> {
    be_bytes(body.len() as u32) + body
}

/// What a stream that holds `input` and then ends gives when one message is read
/// from it: the body's length, or what is wrong.
pub open spec fn frame_of(input: Seq<u8>) -> Result<nat, FrameProblem> {
    if input.len() < 4 {
        Err(FrameProblem::Truncated)
    } else if be_value(input) > MAX_MESSAGE_LEN {
        Err(FrameProblem::TooLong(be_value(input) as u32))
    } else if input.len() < 4 + be_value(input) {
        Err(FrameProblem::Truncated)
    } else {
        Ok(be_value(input) as nat)
    }
}

/// What can be wrong with a frame, whatever its body says.
#[derive(Clone, Copy, Debug, PartialEq, Eq, Structural)]
pub enum FrameProblem {
    /// The stream ended inside the message.
    Truncated,
    TooLong(u32),
}

/// Frames one message body: big-endian u32 length, then the bytes.
pub fn write_message(body: &Vec<u8>) -> (r: Vec<u8>)
    requires
        body@.len() <= u32::MAX,
    ensures
        r@ == framed(body@),
{
    let n: u32 = body.len() as u32;
    let mut r: Vec<u8> = Vec::new();
    r.push((n / 0x1000000) as u8);
    r.push(((n / 0x10000) % 0x100) as u8);
    r.push(((n / 0x100) % 0x100) as u8);
    r.push((n % 0x100) as u8);
    assert(r@ =~= be_bytes(n));
    let mut i: usize = 0;
    while i < body.len()
        invariant
            i <= body@.len(),
            r@ == be_bytes(n) + body@.take(i as int),
        decreases body@.len() - i,
    {
        r.push(body[i]);
        i = i + 1;
        assert(r@ =~= be_bytes(n) + body@.take(i as int));
    }
    assert(body@.take(body@.len() as int) =~= body@);
    r
}

/// The length a message header announces, checked against [`MAX_MESSAGE_LEN`]
/// before a byte of the body is read.
pub fn message_len(header: &[u8]) -> (r: Result<u32, FrameProblem>)
    requires
        header@.len() == 4,
    ensures
        r == (if be_value(header@) > MAX_MESSAGE_LEN {
            Err::<u32, FrameProblem>(FrameProblem::TooLong(be_value(header@) as u32))
        } else {
            Ok::<u32, FrameProblem>(be_value(header@) as u32)
        }),
        0 <= be_value(header@) <= u32::MAX,
{
    let n: u32 = header[0] as u32 * 0x1000000 + header[1] as u32 * 0x10000 + header[2] as u32
        * 0x100 + header[3] as u32;
    if n > MAX_MESSAGE_LEN {
        Err(FrameProblem::TooLong(n))
    } else {
        Ok(n)
    }
}

/// Reads one message written by [`write_message`] from the start of `input`.
pub fn read_message(input: &[u8]) -> (r: Result<Vec<u8>, FrameProblem>)
    ensures
        match r {
            Ok(body) => frame_of(input@) == Ok::<nat, FrameProblem>(body@.len()) && body@
                == input@.subrange(4, 4 + body@.len() as int),
            Err(e) => frame_of(input@) == Err::<nat, FrameProblem>(e),
        },
{
    if input.len() < 4 {
        return Err(FrameProblem::Truncated);
    }
    let header = crate::bytes::byte_range(input, 0, 4);
    assert(be_value(header@) == be_value(input@));
    match message_len(header.as_slice()) {
        Err(e) => Err(e),
        Ok(n) => {
            if input.len() - 4 < n as usize {
                return Err(FrameProblem::Truncated);
            }
            Ok(crate::bytes::byte_range(input, 4, 4 + n as usize))
        },
    }
}

/// A message that was written reads back whole, whatever follows it on the
/// stream.
pub proof fn messages_round_trip(body: Seq<u8>, rest: Seq<u8>)
    requires
        body.len() <= MAX_MESSAGE_LEN,
    ensures
        frame_of(framed(body) + rest) == Ok::<nat, FrameProblem>(body.len()),
        (framed(body) + rest).subrange(4, 4 + body.len() as int) == body,
{
    let input = framed(body) + rest;
    assert(be_bytes(body.len() as u32).len() == 4);
    lemma_be_bytes(body.len() as u32);
    assert(be_value(input) == be_value(be_bytes(body.len() as u32)));
    assert(input.subrange(4, 4 + body.len() as int) =~= body);
}

/// A message longer than the limit is refused by its header alone.
pub proof fn oversized_messages_are_refused(body: Seq<u8>, rest: Seq<u8>)
    requires
        MAX_MESSAGE_LEN < body.len() <= u32::MAX,
    ensures
        frame_of(framed(body) + rest) == Err::<nat, FrameProblem>(
            FrameProblem::TooLong(body.len() as u32),
        ),
{
    let input = framed(body) + rest;
    lemma_be_bytes(body.len() as u32);
    assert(be_value(input) == be_value(be_bytes(body.len() as u32)));
}

/// A stream that ends inside a message gives no message.
pub proof fn truncated_messages_are_errors(body: Seq<u8>, cut: int)
    requires
        body.len() <= MAX_MESSAGE_LEN,
        0 <= cut < framed(body).len(),
    ensures
        frame_of(framed(body).take(cut)) == Err::<nat, FrameProblem>(FrameProblem::Truncated),
{
    let input = framed(body).take(cut);
    lemma_be_bytes(body.len() as u32);
    if cut >= 4 {
        assert(be_value(input) == be_value(be_bytes(body.len() as u32)));
    }
}

proof fn lemma_be_bytes(n: u32)
    ensures
        be_value(be_bytes(n)) == n,
{
}

//-- Activation -------------------------------------------------------------------
/// Bytes in hexadecimal: two digits each, the higher one first, in lower case.
pub open spec fn hex(bytes: Seq<u8>) -> Seq<char> {
    Seq::new(
        2 * bytes.len(),
        |i: int|
            text::digit_char(
                if i % 2 == 0 {
                    bytes[i / 2] as nat / 16
                } else {
                    bytes[i / 2] as nat % 16
                },
            ),
    )
}

/// `data_encoding::HEXLOWER.encode`: the bytes in hexadecimal, in lower case.
#[verifier::external_body]
fn hex_encode(bytes: &[u8]) -> (r: String)
    ensures
        r@ == hex(bytes@),
{
    data_encoding::HEXLOWER.encode(bytes)
}

/// `data_encoding::HEXLOWER.decode`: the bytes that the digits write, or nothing where they
/// write none. Digits in upper case write none.
#[verifier::external_body]
fn hex_decode(digits: &str) -> (r: Option<Vec<u8>>)
    ensures
        match r {
            Some(bytes) => hex(bytes@) == digits@,
            None => forall|bytes: Seq<u8>| #[trigger] hex(bytes) != digits@,
        },
{
    data_encoding::HEXLOWER.decode(digits.as_bytes()).ok()
}

/// What bytes are written by in hexadecimal: the digits and the letters to `f`.
pub(crate) proof fn lemma_hex(bytes: Seq<u8>)
    ensures
        forall|i: int|
            0 <= i < hex(bytes).len() ==> '0' <= #[trigger] hex(bytes)[i] <= '9' || 'a' <= hex(
                bytes,
            )[i] <= 'f',
{
}

/// No two byte sequences are the same in hexadecimal.
pub proof fn hex_is_unambiguous(a: Seq<u8>, b: Seq<u8>)
    requires
        hex(a) == hex(b),
    ensures
        a == b,
{
    assert(hex(a).len() == 2 * a.len() && hex(b).len() == 2 * b.len());
    assert forall|k: int| 0 <= k < a.len() implies a[k] == b[k] by {
        assert((2 * k) / 2 == k && (2 * k + 1) / 2 == k && (2 * k) % 2 == 0 && (2 * k + 1) % 2 == 1);
        assert(hex(a)[2 * k] == hex(b)[2 * k]);
        assert(hex(a)[2 * k + 1] == hex(b)[2 * k + 1]);
        assert(hex(a)[2 * k] == text::digit_char(a[k] as nat / 16));
        assert(hex(b)[2 * k] == text::digit_char(b[k] as nat / 16));
        assert(hex(a)[2 * k + 1] == text::digit_char(a[k] as nat % 16));
        assert(hex(b)[2 * k + 1] == text::digit_char(b[k] as nat % 16));
        lemma_digits_differ(a[k] as nat / 16, b[k] as nat / 16);
        lemma_digits_differ(a[k] as nat % 16, b[k] as nat % 16);
    }
    assert(a =~= b);
}

proof fn lemma_digits_differ(m: nat, n: nat)
    requires
        m < 16,
        n < 16,
    ensures
        text::digit_char(m) == text::digit_char(n) ==> m == n,
{
    assert(text::digit_char(m) as u32 == if m < 10 {
        48 + m
    } else {
        87 + m
    });
    assert(text::digit_char(n) as u32 == if n < 10 {
        48 + n
    } else {
        87 + n
    });
}

/// The key of a host's endpoint, which guests dial it by.
#[derive(Clone, Copy, Debug, PartialEq, Eq)]
pub struct EndpointId(pub [u8; 32]);

impl EndpointId {
    /// The key in hexadecimal.
    pub fn to_hex(&self) -> (r: String)
        ensures
            r@ == hex(self.0@),
    {
        hex_encode(self.0.as_slice())
    }

    /// Reads the key that [`EndpointId::to_hex`] writes.
    pub fn from_hex(digits: &str) -> (r: Option<EndpointId>)
        ensures
            match r {
                Some(id) => hex(id.0@) == digits@,
                None => forall|bytes: Seq<u8>|
                    bytes.len() == 32 ==> #[trigger] hex(bytes) != digits@,
            },
    {
        match hex_decode(digits) {
            Some(bytes) => match bytes::exactly_32(bytes.as_slice()) {
                Some(id) => Some(EndpointId(id)),
                None => {
                    proof {
                        assert forall|other: Seq<u8>| other.len() == 32 implies #[trigger] hex(
                            other,
                        ) != digits@ by {
                            if hex(other) == digits@ {
                                hex_is_unambiguous(other, bytes@);
                            }
                        }
                    }
                    None
                },
            },
            None => None,
        }
    }
}

/// The secret half of an invite, sent to the invitee.
#[derive(Clone, Copy, Debug, PartialEq, Eq)]
pub struct InviteSecret(pub [u8; 16]);

impl InviteSecret {
    /// The secret in hexadecimal, as a guest sends it to activate.
    pub fn to_hex(&self) -> (r: String)
        ensures
            r@ == hex(self.0@),
    {
        hex_encode(self.0.as_slice())
    }

    /// Reads the secret that [`InviteSecret::to_hex`] writes.
    pub fn from_hex(digits: &str) -> (r: Option<InviteSecret>)
        ensures
            match r {
                Some(secret) => hex(secret.0@) == digits@,
                None => forall|bytes: Seq<u8>|
                    bytes.len() == 16 ==> #[trigger] hex(bytes) != digits@,
            },
    {
        match hex_decode(digits) {
            Some(bytes) => match bytes::exactly_16(bytes.as_slice()) {
                Some(secret) => Some(InviteSecret(secret)),
                None => {
                    proof {
                        assert forall|other: Seq<u8>| other.len() == 16 implies #[trigger] hex(
                            other,
                        ) != digits@ by {
                            if hex(other) == digits@ {
                                hex_is_unambiguous(other, bytes@);
                            }
                        }
                    }
                    None
                },
            },
            None => None,
        }
    }
}

/// Why a host refuses to activate a guest node.
#[derive(Clone, Copy, Debug, PartialEq, Eq, Structural)]
pub enum ActivationError {
    Malformed,
    InviteUnknown,
    InviteConsumed,
    InviteExpired,
    AlreadyGuest,
    Revoked,
}

impl ActivationError {
    /// The HTTP status that a refusal is answered with. Guests rely on those of a malformed
    /// request, of an unknown invite and of a consumed one.
    pub open spec fn status_spec(self) -> u16 {
        match self {
            ActivationError::Malformed => 400,
            ActivationError::InviteUnknown => 403,
            ActivationError::InviteConsumed => 409,
            ActivationError::InviteExpired => 403,
            ActivationError::AlreadyGuest => 409,
            ActivationError::Revoked => 403,
        }
    }

    /// The refusal's name in the answer.
    pub open spec fn name(self) -> Seq<char> {
        match self {
            ActivationError::Malformed => "malformed"@,
            ActivationError::InviteUnknown => "invite-unknown"@,
            ActivationError::InviteConsumed => "invite-consumed"@,
            ActivationError::InviteExpired => "invite-expired"@,
            ActivationError::AlreadyGuest => "already-guest"@,
            ActivationError::Revoked => "revoked"@,
        }
    }

    /// The HTTP status of the refusal.
    pub fn status(self) -> (r: u16)
        ensures
            r == self.status_spec(),
    {
        match self {
            ActivationError::Malformed => 400,
            ActivationError::InviteUnknown => 403,
            ActivationError::InviteConsumed => 409,
            ActivationError::InviteExpired => 403,
            ActivationError::AlreadyGuest => 409,
            ActivationError::Revoked => 403,
        }
    }

    /// The refusal's name.
    pub fn as_str(self) -> (r: &'static str)
        ensures
            r@ == self.name(),
    {
        match self {
            ActivationError::Malformed => "malformed",
            ActivationError::InviteUnknown => "invite-unknown",
            ActivationError::InviteConsumed => "invite-consumed",
            ActivationError::InviteExpired => "invite-expired",
            ActivationError::AlreadyGuest => "already-guest",
            ActivationError::Revoked => "revoked",
        }
    }
}

/// Why a host closes a guest's connection.
#[derive(Clone, Copy, Debug, PartialEq, Eq, Structural)]
pub enum CloseCode {
    /// The peer is no guest of the share.
    Unknown,
    /// The host revoked the guest.
    Revoked,
    /// The host is going down.
    Closing,
}

impl CloseCode {
    /// The number that the connection is closed with.
    pub open spec fn number(self) -> u32 {
        match self {
            CloseCode::Unknown => 1,
            CloseCode::Revoked => 2,
            CloseCode::Closing => 3,
        }
    }

    /// The reason phrase that goes with it.
    pub open spec fn phrase(self) -> Seq<char> {
        match self {
            CloseCode::Unknown => "unknown"@,
            CloseCode::Revoked => "revoked"@,
            CloseCode::Closing => "closing"@,
        }
    }

    /// The number that the connection is closed with.
    pub fn code(self) -> (r: u32)
        ensures
            r == self.number(),
    {
        match self {
            CloseCode::Unknown => 1,
            CloseCode::Revoked => 2,
            CloseCode::Closing => 3,
        }
    }

    /// What a number that a connection was closed with says. One that this build does not know
    /// says nothing.
    pub fn from_code(number: u64) -> (r: Option<CloseCode>)
        ensures
            match r {
                Some(code) => code.number() == number,
                None => forall|code: CloseCode| (#[trigger] code.number()) != number,
            },
    {
        match number {
            1 => Some(CloseCode::Unknown),
            2 => Some(CloseCode::Revoked),
            3 => Some(CloseCode::Closing),
            _ => None,
        }
    }

    /// The reason phrase that goes with the number.
    pub fn reason(self) -> (r: &'static str)
        ensures
            r@ == self.phrase(),
    {
        match self {
            CloseCode::Unknown => "unknown",
            CloseCode::Revoked => "revoked",
            CloseCode::Closing => "closing",
        }
    }
}

/// A close code is known by its number.
pub proof fn close_codes_are_told_apart(a: CloseCode, b: CloseCode)
    ensures
        a.number() == b.number() <==> a == b,
{
}

//-- What goes over the wire ------------------------------------------------------
/// A frame is the length of its body in four bytes, the most significant first, and then the
/// body; and a stream that starts like that gives that many bytes, up to 65536 of them.
pub proof fn frames_are_length_and_body(body: Seq<u8>, input: Seq<u8>)
    requires
        body.len() <= u32::MAX,
    ensures
        framed(body).len() == 4 + body.len(),
        framed(body)[0] * 16777216 + framed(body)[1] * 65536 + framed(body)[2] * 256
            + framed(body)[3] == body.len(),
        framed(body).skip(4) == body,
        input.len() >= 4 ==> {
            let n = input[0] * 16777216 + input[1] * 65536 + input[2] * 256 + input[3];
            frame_of(input) == if n > 65536 {
                Err::<nat, FrameProblem>(FrameProblem::TooLong(n as u32))
            } else if input.len() < 4 + n {
                Err::<nat, FrameProblem>(FrameProblem::Truncated)
            } else {
                Ok::<nat, FrameProblem>(n as nat)
            }
        },
        input.len() < 4 ==> frame_of(input) == Err::<nat, FrameProblem>(FrameProblem::Truncated),
{
    lemma_be_bytes(body.len() as u32);
    assert(framed(body).skip(4) =~= body);
}

/// An `If-None-Match` value names the hashes that its entries name, whichever of them it is:
/// two values with a comma between them name what either of them does, and a single entry
/// names a hash where it is the wildcard, the hash's tag or the weak form of that, blanks
/// around it aside.
pub proof fn if_none_match_names_what_its_entries_name(h: ConfigHash, a: Seq<char>, b: Seq<char>)
    ensures
        h.in_if_none_match(a + ","@ + b) <==> h.in_if_none_match(a) || h.in_if_none_match(b),
        (forall|i: int| 0 <= i < a.len() ==> #[trigger] a[i] != ',') ==> (h.in_if_none_match(a)
            <==> text::trimmed(a) == "*"@ || text::trimmed(a) == seq!['"'] + h.digits() + seq!['"']
            || text::trimmed(a) == seq!['W', '/', '"'] + h.digits() + seq!['"']),
{
    reveal_strlit(",");
    reveal_strlit("W/");
    text::pieces_follow_one_another(a, b, ',');
    assert(a + ","@ + b =~= a + seq![','] + b);
    let x = text::pieces(a, ',');
    let y = text::pieces(b, ',');
    let all = text::pieces(a + ","@ + b, ',');
    assert(all == x + y);
    if h.in_if_none_match(a) {
        let i = choose|i: int| 0 <= i < x.len() && h.named_by(#[trigger] x[i]);
        assert(all[i] == x[i]);
    }
    if h.in_if_none_match(b) {
        let i = choose|i: int| 0 <= i < y.len() && h.named_by(#[trigger] y[i]);
        assert(all[x.len() + i] == y[i]);
    }
    if h.in_if_none_match(a + ","@ + b) {
        let i = choose|i: int| 0 <= i < all.len() && h.named_by(#[trigger] all[i]);
        if i < x.len() {
            assert(x[i] == all[i]);
        } else {
            assert(y[i - x.len()] == all[i]);
        }
    }
    if forall|i: int| 0 <= i < a.len() ==> #[trigger] a[i] != ',' {
        text::texts_without_separators_are_whole(a, ',');
        assert(x[0] == a);
        let tag = text::trimmed(a);
        let weak = seq!['W', '/', '"'] + h.digits() + seq!['"'];
        if tag == weak {
            assert("W/"@.is_prefix_of(tag)) by {
                assert(tag.subrange(0, 2) =~= "W/"@);
            }
            assert(tag.skip(2) =~= h.tag());
            assert(h.named_by(x[0]));
        }
        if "W/"@.is_prefix_of(tag) && tag.skip(2) == h.tag() {
            assert(tag =~= tag.subrange(0, 2) + tag.skip(2));
            assert(tag =~= weak);
        }
    }
}

/// What a guest may know of a share or a circle is written out whole: the hash, the name, the
/// transport, and each entry, in their order, with its ID, its name and its kind.
pub proof fn infos_are_written_out_whole(
    config_hash: ConfigHash,
    name: Seq<char>,
    transport: Seq<char>,
    entries: Seq<Share>,
    parts: Seq<Seq<char>>,
    share: ShareInfo,
    circle: CircleInfo,
)
    requires
        parts.len() == entries.len(),
        forall|i: int|
            0 <= i < parts.len() ==> #[trigger] parts[i] == "{\"id\":"@ + json_string(entries[i].id@)
                + ",\"name\":"@ + json_string(entries[i].name@) + ",\"kind\":\""@
                + entries[i].kind.name() + "\"}"@,
        share.config_hash == config_hash && circle.config_hash == config_hash,
        share.name@ == name && circle.name@ == name,
        share.transport@ == transport && circle.transport@ == transport,
        share.apps@ == entries && circle.shares@ == entries,
    ensures
        share.json() == "{\"config_hash\":\""@ + config_hash.digits() + "\",\"name\":"@
            + json_string(name) + ",\"transport\":"@ + json_string(transport) + (",\""@ + "apps"@
            + "\":["@ + text::joined(parts, ","@) + "]"@) + "}"@,
        circle.json() == "{\"config_hash\":\""@ + config_hash.digits() + "\",\"name\":"@
            + json_string(name) + ",\"transport\":"@ + json_string(transport) + (",\""@
            + "shares"@ + "\":["@ + text::joined(parts, ","@) + "]"@) + "}"@,
        share.activation_json() == "{\"config_hash\":\""@ + config_hash.digits()
            + "\",\"name\":"@ + json_string(name) + ",\"transport\":"@ + json_string(transport) + (
        ",\""@ + "shares"@ + "\":["@ + text::joined(parts, ","@) + "]"@) + (",\""@ + "apps"@
            + "\":["@ + text::joined(parts, ","@) + "]"@) + "}"@,
{
    assert(entries.map_values(|e: Share| e.json()) =~= parts);
}

/// A preamble names its app, and a change its hash, as a JSON object.
pub proof fn messages_carry_what_they_are_for(preamble: HttpPreamble, changed: CircleChanged)
    ensures
        preamble.json() == "{\"share_id\":"@ + json_string(preamble.share_id@) + "}"@,
        changed.json() == "{\"config_hash\":\""@ + text::hex_digits(changed.config_hash.0 as nat, 16)
            + "\"}"@,
        changed.config_hash.tag() == seq!['"'] + text::hex_digits(
            changed.config_hash.0 as nat,
            16,
        ) + seq!['"'],
{
}

} // verus!
