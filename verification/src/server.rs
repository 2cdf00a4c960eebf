//! HTTP server for serving bootstrap files and the built-in web UI: which files are read for a
//! request and what is replied.

use vstd::prelude::*;
use vstd::utf8::{decode_utf8, partial_valid_utf8_extend_ascii_block, valid_utf8};

use crate::http::{bare_reply, Body, BodyView, Reply, ReplyView};
use crate::net::{IpAddr, SocketAddr};
use crate::path::{joined_text, FilePath};
use crate::text::{
    chars_of, decimal, decimal_text, eq_ignore_ascii_case, is_char, join_text, law_case,
    law_split_first, law_split_undoes_join, lemma_first_where_unique, lowered, same_text, split,
    split_at_char, split_first, split_once, trim, trimmed, utf8_text, views,
};

verus! {

/// What the server answers to.
#[derive(Clone, Copy, Debug, PartialEq, Eq, Structural)]
pub enum Route {
    /// The web UI.
    Index,
    /// The script of the web UI.
    Script,
    /// What is known of the last sync.
    Metadata,
    /// The bootstrap archive.
    BootstrapZip,
    /// The bootstrap archive, compressed with brotli.
    BootstrapZipBr,
    /// A relay to a TCP address over WebSocket.
    Socket,
    /// A relay over WebRTC data channels.
    RtcConnect,
}

impl Route {
    /// The path pattern of a route.
    pub open spec fn pattern(self) -> Seq<char> {
        match self {
            Route::Index => "/"@,
            Route::Script => "/torFastBootstrap.js"@,
            Route::Metadata => "/metadata.json"@,
            Route::BootstrapZip => "/bootstrap.zip"@,
            Route::BootstrapZipBr => "/bootstrap.zip.br"@,
            Route::Socket => "/socket/{target}"@,
            Route::RtcConnect => "/rtc/connect"@,
        }
    }

    /// The path pattern of a route.
    pub fn path(self) -> (r: &'static str)
        ensures
            r@ == self.pattern(),
    {
        match self {
            Route::Index => "/",
            Route::Script => "/torFastBootstrap.js",
            Route::Metadata => "/metadata.json",
            Route::BootstrapZip => "/bootstrap.zip",
            Route::BootstrapZipBr => "/bootstrap.zip.br",
            Route::Socket => "/socket/{target}",
            Route::RtcConnect => "/rtc/connect",
        }
    }
}

/// Whether a route is served: all are, but for the uncompressed archive, which the settings have
/// to allow.
pub open spec fn served(route: Route, allow_uncompressed: bool) -> bool {
    route == Route::BootstrapZip ==> allow_uncompressed
}

/// The routes that the server answers to.
pub fn routes(allow_uncompressed: bool) -> (r: Vec<Route>)
    ensures
        forall|route: Route| r@.contains(route) <==> served(route, allow_uncompressed),
        r@.no_duplicates(),
{
    let mut r: Vec<Route> = Vec::new();
    r.push(Route::Index);
    r.push(Route::Script);
    r.push(Route::Metadata);
    r.push(Route::BootstrapZipBr);
    r.push(Route::Socket);
    r.push(Route::RtcConnect);
    if allow_uncompressed {
        r.push(Route::BootstrapZip);
    }
    assert forall|route: Route| r@.contains(route) <==> served(route, allow_uncompressed) by {
        assert(r@[0] == Route::Index && r@[1] == Route::Script && r@[2] == Route::Metadata && r@[3]
            == Route::BootstrapZipBr && r@[4] == Route::Socket && r@[5] == Route::RtcConnect);
        if allow_uncompressed {
            assert(r@[6] == Route::BootstrapZip);
        }
    }
    r
}

/// What the HTTP server listens on and answers to: every IPv4 address of the host, at the port.
pub fn run(port: u16, allow_uncompressed: bool) -> (r: (SocketAddr, Vec<Route>))
    ensures
        r.0 == (SocketAddr { ip: IpAddr::V4(0), port, flowinfo: 0, scope_id: 0 }),
        forall|route: Route| r.1@.contains(route) <==> served(route, allow_uncompressed),
        r.1@.no_duplicates(),
{
    (SocketAddr::new(IpAddr::V4(0), port), routes(allow_uncompressed))
}

/// Which pre-compressed variant to serve, if any.
#[derive(Clone, Copy, Debug, PartialEq, Eq, Structural)]
pub enum Encoding {
    Brotli,
    Gzip,
    Identity,
}

/// The bytes that a header value may have to count as text: visible ASCII, space and tab.
pub open spec fn visible(value: Seq<u8>) -> bool {
    forall|i: int| 0 <= i < value.len() ==> 32 <= #[trigger] value[i] < 127 || value[i] == 9
}

/// The weight 0 of a token: `0`, with decimals or without.
pub open spec fn zero_weight(value: Seq<char>) -> bool {
    &&& value.len() > 0
    &&& value[0] == '0'
    &&& value.len() > 1 ==> value[1] == '.'
    &&& forall|i: int| 2 <= i < value.len() ==> #[trigger] value[i] == '0'
}

/// Whether a parameter of a token gives it the weight 0.
pub open spec fn refusing(parameter: Seq<char>) -> bool {
    match split_first(parameter, '=') {
        Some((key, value)) => lowered(trimmed(key)) == lowered("q"@) && zero_weight(
            trimmed(value),
        ),
        None => false,
    }
}

/// Whether a token of an `Accept-Encoding` value accepts the encoding: what stands before its
/// first `;` is the name, and no parameter after that gives it the weight 0.
pub open spec fn token_accepts(token: Seq<char>, name: Seq<char>) -> bool {
    let parts = split_at_char(token, ';');
    &&& trimmed(parts[0]) == name
    &&& forall|k: int| 1 <= k < parts.len() ==> !refusing(#[trigger] parts[k])
}

/// Whether an `Accept-Encoding` value accepts the encoding.
pub open spec fn lists(value: Seq<u8>, name: Seq<char>) -> bool {
    visible(value) && exists|k: int|
        0 <= k < split_at_char(decode_utf8(value), ',').len() && token_accepts(
            #[trigger] split_at_char(decode_utf8(value), ',')[k],
            name,
        )
}

/// Whether one of the `Accept-Encoding` values of a request accepts the encoding.
pub open spec fn accepts(values: Seq<Vec<u8>>, name: Seq<char>) -> bool {
    exists|i: int| 0 <= i < values.len() && lists((#[trigger] values[i])@, name)
}

/// The best encoding that a client accepts: brotli before gzip before none.
pub open spec fn best_of(values: Seq<Vec<u8>>) -> Encoding {
    if accepts(values, "br"@) {
        Encoding::Brotli
    } else if accepts(values, "gzip"@) || accepts(values, "x-gzip"@) {
        Encoding::Gzip
    } else {
        Encoding::Identity
    }
}

fn is_visible(value: &Vec<u8>) -> (r: bool)
    ensures
        r == visible(value@),
        r ==> valid_utf8(value@),
{
    let n: usize = value.len();
    let mut i: usize = 0;
    while i < n
        invariant
            i <= n,
            n == value@.len(),
            forall|k: int| 0 <= k < i ==> 32 <= #[trigger] value@[k] < 127 || value@[k] == 9,
        decreases n - i,
    {
        if !((32 <= value[i] && value[i] < 127) || value[i] == 9) {
            return false;
        }
        i += 1;
    }
    proof {
        assert(value@.subrange(0, 0) =~= seq![]);
        partial_valid_utf8_extend_ascii_block(value@, 0, n as int);
        assert(value@.subrange(0, n as int) =~= value@);
    }
    true
}

fn is_zero_weight(value: &str) -> (r: bool)
    ensures
        r == zero_weight(value@),
{
    let chars = chars_of(value);
    let n: usize = chars.len();
    if n == 0 || chars[0] != '0' || (n > 1 && chars[1] != '.') {
        return false;
    }
    let mut i: usize = 2;
    while i < n
        invariant
            2 <= i,
            n == chars@.len(),
            chars@ == value@,
            forall|k: int| 2 <= k < i && k < n ==> #[trigger] chars@[k] == '0',
        decreases n - i,
    {
        if chars[i] != '0' {
            return false;
        }
        i += 1;
    }
    true
}

fn is_refusing(parameter: &str) -> (r: bool)
    ensures
        r == refusing(parameter@),
{
    match split_once(parameter, '=') {
        Some((key, value)) => eq_ignore_ascii_case(trim(key), "q") && is_zero_weight(trim(value)),
        None => false,
    }
}

fn token_is_accepting(token: &str, name: &str) -> (r: bool)
    ensures
        r == token_accepts(token@, name@),
{
    let parts = split(token, ';');
    let ghost all = split_at_char(token@, ';');
    assert(all.len() == parts@.len());
    assert(all.len() > 0);
    assert(all[0] == parts@[0]@);
    if !same_text(trim(parts[0]), name) {
        return false;
    }
    let n: usize = parts.len();
    let mut i: usize = 1;
    while i < n
        invariant
            1 <= i <= n,
            n == parts@.len(),
            all == views(parts@),
            all == split_at_char(token@, ';'),
            forall|k: int| 1 <= k < i ==> !refusing(#[trigger] all[k]),
        decreases n - i,
    {
        assert(all[i as int] == parts@[i as int]@);
        if is_refusing(parts[i]) {
            return false;
        }
        i += 1;
    }
    true
}

fn value_lists(value: &Vec<u8>, name: &str) -> (r: bool)
    ensures
        r == lists(value@, name@),
{
    if !is_visible(value) {
        return false;
    }
    let text = match utf8_text(value.as_slice()) {
        Some(text) => text,
        None => {
            return false;
        },
    };
    let parts = split(text, ',');
    let ghost all = split_at_char(text@, ',');
    assert(all.len() == parts@.len());
    let n: usize = parts.len();
    let mut i: usize = 0;
    while i < n
        invariant
            i <= n,
            n == parts@.len(),
            all == views(parts@),
            all == split_at_char(decode_utf8(value@), ','),
            visible(value@),
            forall|k: int| 0 <= k < i ==> !token_accepts(#[trigger] all[k], name@),
        decreases n - i,
    {
        assert(all[i as int] == parts@[i as int]@);
        if token_is_accepting(parts[i], name) {
            return true;
        }
        i += 1;
    }
    false
}

fn any_lists(values: &Vec<Vec<u8>>, name: &str) -> (r: bool)
    ensures
        r == accepts(values@, name@),
{
    let n: usize = values.len();
    let mut i: usize = 0;
    while i < n
        invariant
            i <= n,
            n == values@.len(),
            forall|k: int| 0 <= k < i ==> !lists((#[trigger] values@[k])@, name@),
        decreases n - i,
    {
        if value_lists(&values[i], name) {
            return true;
        }
        i += 1;
    }
    false
}

/// Pick the best encoding the client accepts. Prefer brotli > gzip > identity. `accept` has the
/// values of the `Accept-Encoding` headers of the request.
pub fn best_encoding(accept: &Vec<Vec<u8>>) -> (r: Encoding)
    ensures
        r == best_of(accept@),
{
    if any_lists(accept, "br") {
        Encoding::Brotli
    } else if any_lists(accept, "gzip") || any_lists(accept, "x-gzip") {
        Encoding::Gzip
    } else {
        Encoding::Identity
    }
}

/// What is added to the name of a file for its pre-compressed variant.
pub open spec fn suffix_of(e: Encoding) -> Option<Seq<char>> {
    match e {
        Encoding::Brotli => Some(".br"@),
        Encoding::Gzip => Some(".gz"@),
        Encoding::Identity => None,
    }
}

/// The pre-compressed variant of a file that is tried first, if any.
pub open spec fn variant_of(dir: Seq<u8>, filename: Seq<char>, e: Encoding) -> Option<Seq<u8>> {
    match suffix_of(e) {
        Some(suffix) => Some(joined_text(dir, filename + suffix)),
        None => None,
    }
}

/// The pre-compressed variant of a file to read first, if any. The file itself is read only
/// where there is none.
pub fn variant_file(dir: &FilePath, filename: &str, e: Encoding) -> (r: Option<FilePath>)
    ensures
        match (r, variant_of(dir@, filename@, e)) {
            (Some(a), Some(b)) => a@ == b,
            (None, None) => true,
            _ => false,
        },
{
    let mut name = filename.to_string();
    match e {
        Encoding::Brotli => {
            name.append(".br");
        },
        Encoding::Gzip => {
            name.append(".gz");
        },
        Encoding::Identity => {
            return None;
        },
    }
    Some(dir.join(name.as_str()))
}

/// The value of `Content-Encoding` for a pre-compressed variant.
pub open spec fn coding_name(e: Encoding) -> Seq<char> {
    match e {
        Encoding::Brotli => "br"@,
        Encoding::Gzip => "gzip"@,
        Encoding::Identity => seq![],
    }
}

/// The reply with a file: the variant where it could be read, else the file itself where that
/// could be read, else that the service is unavailable.
pub open spec fn file_reply(
    e: Encoding,
    content_type: Seq<char>,
    variant: Option<Seq<u8>>,
    plain: Option<Seq<u8>>,
) -> ReplyView {
    match (e, variant, plain) {
        (Encoding::Brotli | Encoding::Gzip, Some(data), _) => ReplyView {
            status: 200,
            headers: seq![
                ("content-type"@, content_type),
                ("content-encoding"@, coding_name(e)),
            ],
            body: BodyView::Bytes(data),
        },
        (_, _, Some(data)) => ReplyView {
            status: 200,
            headers: seq![("content-type"@, content_type)],
            body: BodyView::Bytes(data),
        },
        _ => bare_reply(503),
    }
}

/// The bytes in an `Option`.
pub open spec fn bytes_in(o: Option<Vec<u8>>) -> Option<Seq<u8>> {
    match o {
        Some(v) => Some(v@),
        None => None,
    }
}

fn bytes_reply(content_type: &str, data: Vec<u8>) -> (r: Reply)
    ensures
        r@ == (ReplyView {
            status: 200,
            headers: seq![("content-type"@, content_type@)],
            body: BodyView::Bytes(data@),
        }),
{
    let mut r = Reply { status: 200, headers: Vec::new(), body: Body::Bytes(data) };
    r.add_header("content-type", content_type);
    assert(r@.headers =~= seq![("content-type"@, content_type@)]);
    r
}

/// Serve a file with content-negotiation over pre-compressed variants. `variant` is what was read
/// of the variant that `variant_file` names, `plain` what was read of the file itself.
pub fn serve_file(
    e: Encoding,
    content_type: &str,
    variant: Option<Vec<u8>>,
    plain: Option<Vec<u8>>,
) -> (r: Reply)
    ensures
        r@ == file_reply(e, content_type@, bytes_in(variant), bytes_in(plain)),
{
    let name = match e {
        Encoding::Brotli => Some("br"),
        Encoding::Gzip => Some("gzip"),
        Encoding::Identity => None,
    };
    if let (Some(name), Some(data)) = (name, variant) {
        let mut r = bytes_reply(content_type, data);
        r.add_header("content-encoding", name);
        assert(r@ =~= file_reply(e, content_type@, bytes_in(variant), bytes_in(plain)));
        return r;
    }
    match plain {
        Some(data) => bytes_reply(content_type, data),
        None => Reply::bare(503),
    }
}

/// GET / — web UI, with the page as its body.
pub fn handle_index(page: &str) -> (r: Reply)
    ensures
        r@ == (ReplyView {
            status: 200,
            headers: seq![("content-type"@, "text/html; charset=utf-8"@)],
            body: BodyView::Text(page@),
        }),
{
    let mut r = Reply::text(200, page);
    r.add_header("content-type", "text/html; charset=utf-8");
    assert(r@.headers =~= seq![("content-type"@, "text/html; charset=utf-8"@)]);
    r
}

/// GET /torFastBootstrap.js, with the script as its body.
pub fn handle_js(script: &str) -> (r: Reply)
    ensures
        r@ == (ReplyView {
            status: 200,
            headers: seq![("content-type"@, "text/javascript; charset=utf-8"@)],
            body: BodyView::Text(script@),
        }),
{
    let mut r = Reply::text(200, script);
    r.add_header("content-type", "text/javascript; charset=utf-8");
    assert(r@.headers =~= seq![("content-type"@, "text/javascript; charset=utf-8"@)]);
    r
}

/// The file that a route serves with content negotiation, and its content type.
pub open spec fn negotiated(route: Route) -> Option<(Seq<char>, Seq<char>)> {
    match route {
        Route::Metadata => Some(("metadata.json"@, "application/json"@)),
        Route::BootstrapZip => Some(("bootstrap.zip"@, "application/zip"@)),
        _ => None,
    }
}

/// The file that a route serves with content negotiation, and its content type: GET
/// /metadata.json and GET /bootstrap.zip — identity, gzip, or brotli.
pub fn negotiated_file(route: Route) -> (r: Option<(&'static str, &'static str)>)
    ensures
        match (r, negotiated(route)) {
            (Some(a), Some(b)) => a.0@ == b.0 && a.1@ == b.1,
            (None, None) => true,
            _ => false,
        },
{
    match route {
        Route::Metadata => Some(("metadata.json", "application/json")),
        Route::BootstrapZip => Some(("bootstrap.zip", "application/zip")),
        _ => None,
    }
}

/// The reply with the compressed archive.
pub open spec fn zip_br_reply(e: Encoding, data: Option<Seq<u8>>, zip_len: Option<u64>) -> ReplyView {
    match data {
        None => bare_reply(503),
        Some(bytes) => ReplyView {
            status: 200,
            headers: (if e == Encoding::Brotli {
                seq![
                    ("content-type"@, "application/zip"@),
                    ("content-encoding"@, "br"@),
                ]
            } else {
                seq![("content-type"@, "application/octet-stream"@)]
            }) + (match zip_len {
                Some(n) => seq![("x-decompressed-content-length"@, decimal(n as nat))],
                None => seq![],
            }),
            body: BodyView::Bytes(bytes),
        },
    }
}

/// GET /bootstrap.zip.br — always serves the brotli-compressed bytes.
/// If the client accepts brotli, respond with `Content-Type: application/zip`
/// and `Content-Encoding: br` so the browser decompresses transparently.
/// Otherwise, serve raw bytes as `application/octet-stream` for manual decoding.
///
/// Both paths include `X-Decompressed-Content-Length` with the uncompressed zip
/// size, so clients can show accurate download progress even when the browser
/// handles decompression transparently (where `Content-Length` reflects the
/// compressed size but the stream delivers decompressed bytes).
///
/// `data` is what was read of the compressed archive, `zip_len` the size of the uncompressed one
/// where that is known.
pub fn handle_bootstrap_zip_br(e: Encoding, data: Option<Vec<u8>>, zip_len: Option<u64>) -> (r:
    Reply)
    ensures
        r@ == zip_br_reply(e, bytes_in(data), zip_len),
{
    let bytes = match data {
        Some(bytes) => bytes,
        None => {
            return Reply::bare(503);
        },
    };
    let mut r = match e {
        Encoding::Brotli => {
            let mut r = bytes_reply("application/zip", bytes);
            r.add_header("content-encoding", "br");
            r
        },
        _ => bytes_reply("application/octet-stream", bytes),
    };
    if let Some(n) = zip_len {
        r.add_header("x-decompressed-content-length", decimal_text(n).as_str());
    }
    assert(r@ =~= zip_br_reply(e, bytes_in(data), zip_len));
    r
}

/// The body of the compressed archive is the same whatever the client accepts, and its
/// decompressed size is announced whenever it is known.
pub proof fn law_zip_br_same_bytes(e: Encoding, f: Encoding, data: Seq<u8>, n: u64)
    ensures
        zip_br_reply(e, Some(data), Some(n)).body == zip_br_reply(f, Some(data), Some(n)).body,
        zip_br_reply(e, Some(data), Some(n)).headers.last() == (
            "x-decompressed-content-length"@,
            decimal(n as nat),
        ),
{
}

/// A reply claims an encoding only where the client accepts it.
pub proof fn law_encoding_is_accepted(
    accept: Seq<Vec<u8>>,
    content_type: Seq<char>,
    variant: Option<Seq<u8>>,
    plain: Option<Seq<u8>>,
)
    ensures
        ({
            let h = file_reply(best_of(accept), content_type, variant, plain).headers;
            h.len() > 1 ==> h[1].0 == "content-encoding"@ && (h[1].1 == "br"@ && accepts(
                accept,
                "br"@,
            ) || h[1].1 == "gzip"@ && (accepts(accept, "gzip"@) || accepts(accept, "x-gzip"@)))
        }),
{
}

/// Every route is served, but the uncompressed archive only where the settings allow it; each has
/// its path.
pub proof fn law_routes(route: Route, allow_uncompressed: bool)
    ensures
        served(route, allow_uncompressed) <==> allow_uncompressed || route != Route::BootstrapZip,
        route.pattern() == (match route {
            Route::Index => "/"@,
            Route::Script => "/torFastBootstrap.js"@,
            Route::Metadata => "/metadata.json"@,
            Route::BootstrapZip => "/bootstrap.zip"@,
            Route::BootstrapZipBr => "/bootstrap.zip.br"@,
            Route::Socket => "/socket/{target}"@,
            Route::RtcConnect => "/rtc/connect"@,
        }),
        negotiated(Route::Metadata) == Some(("metadata.json"@, "application/json"@)),
        negotiated(Route::BootstrapZip) == Some(("bootstrap.zip"@, "application/zip"@)),
        negotiated(route) is Some <==> route == Route::Metadata || route == Route::BootstrapZip,
{
}

/// A weight is 0 exactly where it is written `0`, or `0.` with zeros after it, however many.
pub proof fn law_zero_weight(value: Seq<char>)
    ensures
        zero_weight(value) <==> value == seq!['0'] || value.len() >= 2 && value == seq!['0', '.']
            + Seq::new((value.len() - 2) as nat, |i: int| '0'),
{
    if zero_weight(value) {
        if value.len() == 1 {
            assert(value =~= seq!['0']);
        } else {
            assert(value =~= seq!['0', '.'] + Seq::new((value.len() - 2) as nat, |i: int| '0'));
        }
    }
    if value.len() >= 2 && value == seq!['0', '.'] + Seq::new(
        (value.len() - 2) as nat,
        |i: int| '0',
    ) {
        assert(value[0] == '0' && value[1] == '.');
        assert forall|i: int| 2 <= i < value.len() implies #[trigger] value[i] == '0' by {
            assert((seq!['0', '.'] + Seq::new((value.len() - 2) as nat, |k: int| '0'))[i] == '0');
        }
    }
}

/// A parameter refuses exactly where it is `q`, in either case, with a weight of 0, with white
/// space around the two or not.
pub proof fn law_refusing(key: Seq<char>, value: Seq<char>, parameter: Seq<char>)
    requires
        !key.contains('='),
        !parameter.contains('='),
    ensures
        refusing(key.push('=') + value) <==> (trimmed(key) == "q"@ || trimmed(key) == "Q"@)
            && zero_weight(trimmed(value)),
        !refusing(parameter),
{
    let whole = key.push('=') + value;
    let n = key.len() as int;
    assert forall|i: int| 0 <= i < n implies !is_char('=')(#[trigger] whole[i]) by {
        assert(whole[i] == key[i]);
        assert(key.contains(key[i]));
    }
    assert(whole[n] == '=');
    lemma_first_where_unique(whole, is_char('='), n);
    assert(whole.take(n) =~= key);
    assert(whole.skip(n + 1) =~= value);
    law_split_first(parameter, '=');
    if let Some((before, after)) = split_first(parameter, '=') {
        assert(parameter[before.len() as int] == '=');
    }
    reveal_strlit("q");
    reveal_strlit("Q");
    let t = trimmed(key);
    law_case(t, "q"@);
    if lowered(t) == lowered("q"@) {
        assert(t[0] == 'q' || t[0] == 'Q');
        assert(t =~= "q"@ || t =~= "Q"@);
    }
    if t == "Q"@ {
        assert('A' <= t[0] <= 'Z' && "q"@[0] as u32 == t[0] as u32 + 32);
    }
}

/// A token accepts the encoding that it names, unless one of its parameters refuses it, however
/// many it has.
pub proof fn law_token(parts: Seq<Seq<char>>, name: Seq<char>)
    requires
        parts.len() > 0,
        forall|i: int| 0 <= i < parts.len() ==> !(#[trigger] parts[i]).contains(';'),
    ensures
        token_accepts(join_text(parts, seq![';']), name) <==> trimmed(parts[0]) == name && forall|
            k: int,
        |
            1 <= k < parts.len() ==> !refusing(#[trigger] parts[k]),
{
    law_split_undoes_join(parts, ';');
}

/// A header value accepts an encoding exactly where one of its tokens does, however many there are
/// and wherever it stands; a value with a byte that is no visible ASCII accepts none.
pub proof fn law_value(value: Seq<u8>, tokens: Seq<Seq<char>>, name: Seq<char>)
    requires
        tokens.len() > 0,
        forall|i: int| 0 <= i < tokens.len() ==> !(#[trigger] tokens[i]).contains(','),
        decode_utf8(value) == join_text(tokens, seq![',']),
    ensures
        lists(value, name) <==> (forall|i: int|
            0 <= i < value.len() ==> #[trigger] value[i] == 9 || 32 <= value[i] <= 126) && exists|
            k: int,
        |
            0 <= k < tokens.len() && token_accepts(#[trigger] tokens[k], name),
{
    law_split_undoes_join(tokens, ',');
}

/// The best encoding is brotli where any header value accepts it, else gzip where any accepts it
/// under one of its two names, and else none: one more value never makes it worse.
pub proof fn law_best_encoding(values: Seq<Vec<u8>>, more: Vec<u8>)
    ensures
        best_of(values) == Encoding::Brotli <==> exists|i: int|
            0 <= i < values.len() && lists((#[trigger] values[i])@, "br"@),
        best_of(values) == Encoding::Gzip <==> !(exists|i: int|
            0 <= i < values.len() && lists((#[trigger] values[i])@, "br"@)) && exists|i: int|
            0 <= i < values.len() && (lists((#[trigger] values[i])@, "gzip"@) || lists(
                values[i]@,
                "x-gzip"@,
            )),
        best_of(values) == Encoding::Brotli ==> best_of(values.push(more)) == Encoding::Brotli,
        best_of(values) == Encoding::Gzip ==> best_of(values.push(more)) != Encoding::Identity,
{
    let all = values.push(more);
    assert forall|name: Seq<char>| #[trigger] accepts(values, name) implies accepts(all, name) by {
        let i = choose|i: int| 0 <= i < values.len() && lists((#[trigger] values[i])@, name);
        assert(all[i] == values[i]);
    }
    if exists|i: int|
        0 <= i < values.len() && (lists((#[trigger] values[i])@, "gzip"@) || lists(
            values[i]@,
            "x-gzip"@,
        )) {
        let i = choose|i: int|
            0 <= i < values.len() && (lists((#[trigger] values[i])@, "gzip"@) || lists(
                values[i]@,
                "x-gzip"@,
            ));
        assert(accepts(values, "gzip"@) || accepts(values, "x-gzip"@));
    }
    if accepts(values, "gzip"@) {
        let i = choose|i: int| 0 <= i < values.len() && lists((#[trigger] values[i])@, "gzip"@);
        assert(lists(values[i]@, "gzip"@));
    }
    if accepts(values, "x-gzip"@) {
        let i = choose|i: int| 0 <= i < values.len() && lists((#[trigger] values[i])@, "x-gzip"@);
        assert(lists(values[i]@, "x-gzip"@));
    }
}

/// The variant of a file is beside it, under its name with `.br` or `.gz` at the end.
pub proof fn law_variants(dir: Seq<u8>, filename: Seq<char>)
    ensures
        variant_of(dir, filename, Encoding::Brotli) == Some(joined_text(dir, filename + ".br"@)),
        variant_of(dir, filename, Encoding::Gzip) == Some(joined_text(dir, filename + ".gz"@)),
        variant_of(dir, filename, Encoding::Identity) is None,
{
}

/// A file is served as it was read, whole: the variant where the client takes it and it is there,
/// with the encoding named; else the file itself, with no encoding named; and where neither is
/// there the service is unavailable.
pub proof fn law_file_is_served_whole(
    e: Encoding,
    content_type: Seq<char>,
    variant: Option<Seq<u8>>,
    plain: Option<Seq<u8>>,
)
    ensures
        ({
            let r = file_reply(e, content_type, variant, plain);
            match (e, variant, plain) {
                (Encoding::Brotli, Some(data), _) => {
                    &&& r.status == 200
                    &&& r.body == BodyView::Bytes(data)
                    &&& r.headers == seq![
                        ("content-type"@, content_type),
                        ("content-encoding"@, "br"@),
                    ]
                },
                (Encoding::Gzip, Some(data), _) => {
                    &&& r.status == 200
                    &&& r.body == BodyView::Bytes(data)
                    &&& r.headers == seq![
                        ("content-type"@, content_type),
                        ("content-encoding"@, "gzip"@),
                    ]
                },
                (_, _, Some(data)) => {
                    &&& r.status == 200
                    &&& r.body == BodyView::Bytes(data)
                    &&& r.headers == seq![("content-type"@, content_type)]
                },
                _ => r.status == 503 && r.body is Empty && r.headers.len() == 0,
            }
        }),
{
}

/// The compressed archive is served as it was read, whole: as a compressed zip file to a client
/// that takes brotli, and as bytes to any other; its decompressed size is announced exactly where
/// it is known. Where it is not there the service is unavailable.
pub proof fn law_zip_br_is_served_whole(e: Encoding, data: Seq<u8>, zip_len: Option<u64>)
    ensures
        ({
            let r = zip_br_reply(e, Some(data), zip_len);
            let n = r.headers.len() as int;
            &&& r.status == 200
            &&& r.body == BodyView::Bytes(data)
            &&& e == Encoding::Brotli ==> r.headers[0] == ("content-type"@, "application/zip"@)
                && r.headers[1] == ("content-encoding"@, "br"@)
            &&& e != Encoding::Brotli ==> r.headers[0] == (
                "content-type"@,
                "application/octet-stream"@,
            )
            &&& n == (if e == Encoding::Brotli {
                2int
            } else {
                1
            }) + (if zip_len is Some {
                1int
            } else {
                0
            })
            &&& zip_len matches Some(len) ==> r.headers[n - 1] == (
                "x-decompressed-content-length"@,
                decimal(len as nat),
            )
        }),
        zip_br_reply(e, None, zip_len).status == 503,
        zip_br_reply(e, None, zip_len).body is Empty,
{
}

} // verus!
