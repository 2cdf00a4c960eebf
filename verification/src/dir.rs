//! Raw directory protocol requests over BEGINDIR streams.
//!
//! A request is an HTTP/1.0 GET; the body of the response may be compressed.

use async_compression::futures::bufread::{XzDecoder, ZlibDecoder, ZstdDecoder};
use futures::future::FutureExt;
use futures::io::AsyncReadExt;
use vstd::prelude::*;

use crate::text::{
    decimal, decimal_text, eq_ignore_ascii_case, first_where, is_char, law_decimal_reads_back,
    law_lines, law_split_first, law_u16, law_words, lemma_first_where, lemma_first_where_unique,
    lines, lines_of, lowered, parse_u16, same_text, split_first, split_once, split_whitespace,
    text_in, trim, trimmed, u16_value, views, whitespace, without_cr, words_of,
};

verus! {

/// The text of a request for `path`. `diff_from` is the digest of a consensus that the sender
/// has: the response may then be a diff against it.
pub open spec fn request_text(path: Seq<char>, diff_from: Option<Seq<char>>) -> Seq<char> {
    "GET "@ + path
        + " HTTP/1.0\r\nAccept-Encoding: deflate, identity, x-tor-lzma, x-zstd\r\n"@ + (
    match diff_from {
        Some(hex) => "X-Or-Diff-From-Consensus: "@ + hex + "\r\n"@,
        None => seq![],
    }) + "\r\n"@
}

/// Writes a request.
pub fn request(path: &str, diff_from: Option<&str>) -> (r: String)
    ensures
        r@ == request_text(
            path@,
            match diff_from {
                Some(hex) => Some(hex@),
                None => None,
            },
        ),
{
    let mut r = "GET ".to_string();
    r.append(path);
    r.append(" HTTP/1.0\r\nAccept-Encoding: deflate, identity, x-tor-lzma, x-zstd\r\n");
    if let Some(hex) = diff_from {
        r.append("X-Or-Diff-From-Consensus: ");
        r.append(hex);
        r.append("\r\n");
    }
    r.append("\r\n");
    assert(r@ =~= request_text(
        path@,
        match diff_from {
            Some(hex) => Some(hex@),
            None => None,
        },
    ));
    r
}

/// Whether a line ends the header: there is no more to read, or the line is blank.
pub open spec fn ends_header(read: usize, line: Seq<char>) -> bool {
    read == 0 || line == "\r\n"@ || line == "\n"@
}

/// Takes in the next line of the response, of which `read` bytes came. Returns true at the end
/// of the header; a line before that is kept.
pub fn take_header_line(header: &mut String, read: usize, line: &str) -> (r: bool)
    ensures
        r == ends_header(read, line@),
        final(header)@ == (if r {
            old(header)@
        } else {
            old(header)@ + line@
        }),
{
    if read == 0 || same_text(line, "\r\n") || same_text(line, "\n") {
        true
    } else {
        header.append(line);
        false
    }
}

/// The status of a response: the second word of the first line of the header, where that is a
/// number, and 0 where it is not.
pub open spec fn status_of(header: Seq<char>) -> u16 {
    let ls = lines_of(header);
    let ws = words_of(
        if ls.len() > 0 {
            ls[0]
        } else {
            seq![]
        },
    );
    if ws.len() > 1 {
        match u16_value(ws[1]) {
            Some(n) => n,
            None => 0,
        }
    } else {
        0
    }
}

/// Reads the status of a response.
pub fn status(header: &str) -> (r: u16)
    ensures
        r == status_of(header@),
{
    let ls = lines(header);
    assert(views(ls@).len() == ls@.len());
    let first = if ls.len() > 0 {
        assert(views(ls@)[0] == ls@[0]@);
        ls[0]
    } else {
        proof {
            reveal_strlit("");
            assert(""@ =~= seq![]);
        }
        ""
    };
    let ws = split_whitespace(first);
    assert(views(ws@).len() == ws@.len());
    if ws.len() > 1 {
        assert(views(ws@)[1] == ws@[1]@);
        match parse_u16(ws[1]) {
            Some(n) => n,
            None => 0,
        }
    } else {
        0
    }
}

/// The value of a header line `name: value` whose name is `content-encoding`.
pub open spec fn encoding_in(line: Seq<char>) -> Option<Seq<char>> {
    match split_first(line, ':') {
        Some((name, value)) => if lowered(trimmed(name)) == lowered("content-encoding"@) {
            Some(trimmed(value))
        } else {
            None
        },
        None => None,
    }
}

/// The encoding that the first line with one gives, from line `from` on.
pub open spec fn encoding_from(ls: Seq<Seq<char>>, from: int) -> Option<Seq<char>>
    decreases ls.len() - from,
{
    if from >= ls.len() || from < 0 {
        None
    } else {
        match encoding_in(ls[from]) {
            Some(e) => Some(e),
            None => encoding_from(ls, from + 1),
        }
    }
}

/// The encoding of a response: what the first `Content-Encoding` after the status line says.
pub open spec fn encoding_of(header: Seq<char>) -> Option<Seq<char>> {
    encoding_from(lines_of(header), 1)
}

/// Reads the encoding of a response.
pub fn content_encoding(header: &str) -> (r: Option<String>)
    ensures
        text_in(r) == encoding_of(header@),
{
    let ls = lines(header);
    let ghost all = lines_of(header@);
    assert(all.len() == ls@.len());
    let n: usize = ls.len();
    let mut i: usize = 1;
    while i < n
        invariant
            1 <= i,
            n == ls@.len(),
            all == views(ls@),
            all == lines_of(header@),
            encoding_from(all, i as int) == encoding_of(header@),
        decreases n - i,
    {
        assert(all[i as int] == ls@[i as int]@);
        if let Some((name, value)) = split_once(ls[i], ':') {
            if eq_ignore_ascii_case(trim(name), "content-encoding") {
                return Some(trim(value).to_string());
            }
        }
        i += 1;
    }
    None
}

/// Outside type: the error of input and output, which the decoders report.
#[verifier::external_type_specification]
#[verifier::external_body]
pub struct ExIoError(std::io::Error);

/// Why there is no content to a response.
pub enum DirError {
    /// The response has another status than 200; the message.
    Status(String),
    /// The body could not be decoded; the message and the decoder's error.
    Decode(String, std::io::Error),
    /// The body has an encoding that is not known; the message.
    Unsupported(String),
}

/// The message for a response with another status than 200.
pub open spec fn status_message(path: Seq<char>, status: u16) -> Seq<char> {
    "GET "@ + path + " returned status "@ + decimal(status as nat)
}

/// Checks the header of the response to a request for `path`: the encoding of the body where the
/// status is 200, an error where it is not.
pub fn check_header(path: &str, header: &str) -> (r: Result<Option<String>, DirError>)
    ensures
        match r {
            Ok(e) => status_of(header@) == 200 && text_in(e) == encoding_of(header@),
            Err(DirError::Status(m)) => status_of(header@) != 200 && m@ == status_message(
                path@,
                status_of(header@),
            ),
            Err(_) => false,
        },
{
    let s: u16 = status(header);
    if s != 200 {
        let mut m = "GET ".to_string();
        m.append(path);
        m.append(" returned status ");
        m.append(decimal_text(s as u64).as_str());
        return Err(DirError::Status(m));
    }
    Ok(content_encoding(header))
}

/// What a zlib stream holds; `None` where the bytes are no such stream.
pub uninterp spec fn zlib_decoded(data: Seq<u8>) -> Option<Seq<u8>>;

/// Decodes with `async_compression`'s `ZlibDecoder`, read to its end. The result depends on the
/// bytes and nothing else; the format is not stated.
#[verifier::external_body]
fn zlib_decode(data: &[u8]) -> (r: Result<Vec<u8>, std::io::Error>)
    ensures
        match (r, zlib_decoded(data@)) {
            (Ok(v), Some(d)) => v@ == d,
            (Err(_), None) => true,
            _ => false,
        },
{
    let mut out = Vec::new();
    let mut decoder = ZlibDecoder::new(data);
    let done = decoder.read_to_end(&mut out).now_or_never();
    done.unwrap_or(Err(std::io::ErrorKind::WouldBlock.into())).map(|_| out)
}

/// What an xz stream holds; `None` where the bytes are no such stream.
pub uninterp spec fn xz_decoded(data: Seq<u8>) -> Option<Seq<u8>>;

/// Decodes with `async_compression`'s `XzDecoder`, read to its end. The result depends on the
/// bytes and nothing else; the format is not stated.
#[verifier::external_body]
fn xz_decode(data: &[u8]) -> (r: Result<Vec<u8>, std::io::Error>)
    ensures
        match (r, xz_decoded(data@)) {
            (Ok(v), Some(d)) => v@ == d,
            (Err(_), None) => true,
            _ => false,
        },
{
    let mut out = Vec::new();
    let mut decoder = XzDecoder::new(data);
    let done = decoder.read_to_end(&mut out).now_or_never();
    done.unwrap_or(Err(std::io::ErrorKind::WouldBlock.into())).map(|_| out)
}

/// What a Zstandard stream holds; `None` where the bytes are no such stream.
pub uninterp spec fn zstd_decoded(data: Seq<u8>) -> Option<Seq<u8>>;

/// Decodes with `async_compression`'s `ZstdDecoder`, read to its end. The result depends on the
/// bytes and nothing else; the format is not stated.
#[verifier::external_body]
fn zstd_decode(data: &[u8]) -> (r: Result<Vec<u8>, std::io::Error>)
    ensures
        match (r, zstd_decoded(data@)) {
            (Ok(v), Some(d)) => v@ == d,
            (Err(_), None) => true,
            _ => false,
        },
{
    let mut out = Vec::new();
    let mut decoder = ZstdDecoder::new(data);
    let done = decoder.read_to_end(&mut out).now_or_never();
    done.unwrap_or(Err(std::io::ErrorKind::WouldBlock.into())).map(|_| out)
}

/// How a body is decoded.
pub enum Coding {
    /// The bytes as they are.
    Plain,
    Zlib,
    Xz,
    Zstd,
    Unknown,
}

/// How a body with this encoding is decoded.
pub open spec fn coding_of(encoding: Option<Seq<char>>) -> Coding {
    match encoding {
        None => Coding::Plain,
        Some(e) => if e == "identity"@ {
            Coding::Plain
        } else if e == "deflate"@ {
            Coding::Zlib
        } else if e == "x-tor-lzma"@ {
            Coding::Xz
        } else if e == "x-zstd"@ {
            Coding::Zstd
        } else {
            Coding::Unknown
        },
    }
}

/// What a decoder makes of a body, for each way to decode: the content, or `None`.
pub open spec fn decoded(coding: Coding, data: Seq<u8>) -> Option<Seq<u8>> {
    match coding {
        Coding::Plain => Some(data),
        Coding::Zlib => zlib_decoded(data),
        Coding::Xz => xz_decoded(data),
        Coding::Zstd => zstd_decoded(data),
        Coding::Unknown => None,
    }
}

/// What is said where a decoder fails.
pub open spec fn decode_message(coding: Coding) -> Seq<char> {
    match coding {
        Coding::Zlib => "deflate decode"@,
        Coding::Xz => "xz decode"@,
        Coding::Zstd => "zstd decode"@,
        _ => seq![],
    }
}

/// Finds out how a body with this encoding is decoded.
pub fn coding(encoding: Option<&str>) -> (r: Coding)
    ensures
        r == coding_of(
            match encoding {
                Some(e) => Some(e@),
                None => None,
            },
        ),
{
    match encoding {
        None => Coding::Plain,
        Some(e) => if same_text(e, "identity") {
            Coding::Plain
        } else if same_text(e, "deflate") {
            Coding::Zlib
        } else if same_text(e, "x-tor-lzma") {
            Coding::Xz
        } else if same_text(e, "x-zstd") {
            Coding::Zstd
        } else {
            Coding::Unknown
        },
    }
}

fn context(decoded: Result<Vec<u8>, std::io::Error>, words: &str) -> (r: Result<Vec<u8>, DirError>)
    ensures
        match (r, decoded) {
            (Ok(a), Ok(b)) => a == b,
            (Err(DirError::Decode(m, e)), Err(f)) => m@ == words@ && e == f,
            _ => false,
        },
{
    match decoded {
        Ok(v) => Ok(v),
        Err(e) => Err(DirError::Decode(words.to_string(), e)),
    }
}

/// Decodes the body of a response.
pub fn decompress(encoding: Option<&str>, data: &[u8]) -> (r: Result<Vec<u8>, DirError>)
    ensures
        ({
            let e = match encoding {
                Some(e) => Some(e@),
                None => None,
            };
            let c = coding_of(e);
            match r {
                Ok(v) => decoded(c, data@) == Some(v@),
                Err(DirError::Unsupported(m)) => c is Unknown && m@ == "unsupported encoding: "@
                    + e->0,
                Err(DirError::Decode(m, _)) => !(c is Unknown) && decoded(c, data@) is None && m@
                    == decode_message(c),
                Err(DirError::Status(_)) => false,
            }
        }),
{
    match coding(encoding) {
        Coding::Plain => Ok(vstd::slice::slice_to_vec(data)),
        Coding::Zlib => context(zlib_decode(data), "deflate decode"),
        Coding::Xz => context(xz_decode(data), "xz decode"),
        Coding::Zstd => context(zstd_decode(data), "zstd decode"),
        Coding::Unknown => {
            let mut m = "unsupported encoding: ".to_string();
            if let Some(e) = encoding {
                m.append(e);
            }
            Err(DirError::Unsupported(m))
        },
    }
}

/// What the response to a request for `path` gives: the decoded body where the status is 200,
/// an error where it is not or where the body cannot be decoded.
pub fn get(path: &str, header: &str, body: &[u8]) -> (r: Result<Vec<u8>, DirError>)
    ensures
        ({
            let e = encoding_of(header@);
            let c = coding_of(e);
            match r {
                Ok(v) => status_of(header@) == 200 && decoded(c, body@) == Some(v@),
                Err(DirError::Status(m)) => status_of(header@) != 200 && m@ == status_message(
                    path@,
                    status_of(header@),
                ),
                Err(DirError::Unsupported(m)) => status_of(header@) == 200 && c is Unknown && m@
                    == "unsupported encoding: "@ + e->0,
                Err(DirError::Decode(m, _)) => status_of(header@) == 200 && !(c is Unknown)
                    && decoded(c, body@) is None && m@ == decode_message(c),
            }
        }),
{
    match check_header(path, header) {
        Ok(Some(e)) => decompress(Some(e.as_str()), body),
        Ok(None) => decompress(None, body),
        Err(e) => Err(e),
    }
}

/// A request without a digest asks for no diff, and one with a digest differs from it by one
/// header line only.
pub proof fn law_diff_is_one_more_line(path: Seq<char>, hex: Seq<char>)
    ensures
        exists|head: Seq<char>|
            request_text(path, None) == head + "\r\n"@ && request_text(path, Some(hex))
                == #[trigger] (head + "X-Or-Diff-From-Consensus: "@) + hex + "\r\n"@ + "\r\n"@,
{
    let head = "GET "@ + path
        + " HTTP/1.0\r\nAccept-Encoding: deflate, identity, x-tor-lzma, x-zstd\r\n"@;
    assert(head + seq![] =~= head);
    assert(request_text(path, Some(hex)) =~= (head + "X-Or-Diff-From-Consensus: "@) + hex
        + "\r\n"@ + "\r\n"@);
}

/// A request names the path and the encodings that are understood, and ends with a blank line.
pub proof fn law_request(path: Seq<char>)
    ensures
        request_text(path, None) == "GET "@ + path + " HTTP/1.0\r\n"@
            + "Accept-Encoding: deflate, identity, x-tor-lzma, x-zstd\r\n"@ + "\r\n"@,
{
    reveal_strlit(" HTTP/1.0\r\n");
    reveal_strlit("Accept-Encoding: deflate, identity, x-tor-lzma, x-zstd\r\n");
    reveal_strlit(
        " HTTP/1.0\r\nAccept-Encoding: deflate, identity, x-tor-lzma, x-zstd\r\n",
    );
    assert(" HTTP/1.0\r\nAccept-Encoding: deflate, identity, x-tor-lzma, x-zstd\r\n"@ =~=
        " HTTP/1.0\r\n"@ + "Accept-Encoding: deflate, identity, x-tor-lzma, x-zstd\r\n"@);
    assert(request_text(path, None) =~= "GET "@ + path + " HTTP/1.0\r\n"@
        + "Accept-Encoding: deflate, identity, x-tor-lzma, x-zstd\r\n"@ + "\r\n"@);
}

/// The header ends where nothing more comes, or at the first line that has nothing in it: at no
/// other line, however long it is.
pub proof fn law_header_end(read: usize, line: Seq<char>)
    ensures
        ends_header(read, line) <==> read == 0 || lines_of(line) == seq![Seq::<char>::empty()],
{
    reveal_strlit("\r\n");
    reveal_strlit("\n");
    let none = Seq::<char>::empty();
    law_lines(none, none, none);
    assert("\r\n"@ =~= none.push('\r').push('\n'));
    assert("\n"@ =~= none.push('\n'));
    if lines_of(line) == seq![none] {
        lemma_first_where(line, is_char('\n'));
        let i = first_where(line, is_char('\n'));
        if i >= line.len() {
            assert(lines_of(line)[0] == line);
        } else {
            assert(is_char('\n')(line[i]));
            let first = line.take(i);
            let rest = line.skip(i + 1);
            assert(lines_of(line)[0] == without_cr(first));
            assert(lines_of(line).len() == 1 + lines_of(rest).len());
            assert(rest.len() == 0) by {
                if rest.len() > 0 {
                    assert(lines_of(rest).len() > 0);
                }
            }
            if i == 0 {
                assert(line =~= "\n"@);
            } else {
                assert(first.drop_last().len() == i - 1);
                assert(i == 1);
                assert(first.last() == '\r');
                assert(line =~= "\r\n"@);
            }
        }
    }
}

/// The status is the number after the first word of the first line, whatever follows on that line
/// or after it; where there is no such number it is 0.
pub proof fn law_status(version: Seq<char>, n: nat, tail: Seq<char>, rest: Seq<char>, header: Seq<char>)
    requires
        version.len() > 0,
        forall|i: int| 0 <= i < version.len() ==> !whitespace(#[trigger] version[i]),
        n <= 65535,
        tail.len() > 0 ==> whitespace(tail[0]),
        !tail.contains('\n'),
    ensures
        status_of((version.push(' ') + decimal(n) + tail).push('\r').push('\n') + rest) == n,
        !(tail.len() > 0 && tail.last() == '\r') ==> status_of(
            (version.push(' ') + decimal(n) + tail).push('\n') + rest,
        ) == n,
        status_of(header) != 0 ==> {
            let ls = lines_of(header);
            &&& ls.len() > 0
            &&& words_of(ls[0]).len() > 1
            &&& u16_value(words_of(ls[0])[1]) == Some(status_of(header))
        },
{
    let d = decimal(n);
    let line = version.push(' ') + d + tail;
    law_decimal_reads_back(n);
    law_u16(n, d);
    assert forall|i: int| 0 <= i < d.len() implies !whitespace(#[trigger] d[i]) by {
        assert('0' <= d[i] <= '9');
    }
    assert forall|i: int| 0 <= i < line.len() implies line[i] != '\n' by {
        let k = i - version.len() - 1;
        if i < version.len() {
            assert(line[i] == version[i]);
        } else if i == version.len() {
            assert(line[i] == ' ');
        } else if k < d.len() {
            assert(line[i] == d[k]);
        } else {
            assert(line[i] == tail[k - d.len()]);
            assert(tail.contains(tail[k - d.len()]));
        }
    }
    let none = Seq::<char>::empty();
    law_lines(line.push('\r'), rest, line);
    law_lines(line, rest, line);
    law_words(version, ' ', d + tail, version);
    assert(version.push(' ') + (d + tail) =~= line);
    law_words(none, ' ', none, d);
    if tail.len() > 0 {
        let more = tail.drop_first();
        assert(d.push(tail[0]) + more =~= d + tail);
        law_words(d, tail[0], more, d);
    } else {
        assert(d + tail =~= d);
    }
    let ws = words_of(line);
    assert(ws[0] == version && ws[1] == d);
    let first = line.push('\r').push('\n') + rest;
    assert(lines_of(first)[0] == line);
    if !(tail.len() > 0 && tail.last() == '\r') {
        assert(line.last() == (if tail.len() > 0 {
            tail.last()
        } else {
            d.last()
        }));
        assert(lines_of(line.push('\n') + rest)[0] == line);
    }
}

/// A line gives the encoding exactly where what stands before its first colon is
/// `content-encoding`, in whatever case and with white space around it or not; the encoding is
/// what follows the colon, without the white space around it.
pub proof fn law_encoding_line(name: Seq<char>, value: Seq<char>, line: Seq<char>)
    requires
        !name.contains(':'),
        !line.contains(':'),
    ensures
        encoding_in(name.push(':') + value) == (if lowered(trimmed(name)) == lowered(
            "content-encoding"@,
        ) {
            Some(trimmed(value))
        } else {
            None
        }),
        encoding_in(line) is None,
{
    let whole = name.push(':') + value;
    let n = name.len() as int;
    assert forall|i: int| 0 <= i < n implies !is_char(':')(#[trigger] whole[i]) by {
        assert(whole[i] == name[i]);
        assert(name.contains(name[i]));
    }
    assert(whole[n] == ':');
    lemma_first_where_unique(whole, is_char(':'), n);
    assert(whole.take(n) =~= name);
    assert(whole.skip(n + 1) =~= value);
    law_split_first(line, ':');
    if let Some((before, after)) = split_first(line, ':') {
        assert(line[before.len() as int] == ':');
    }
}

/// The encoding of a response is what the first line after the status line that gives one gives,
/// wherever in the header it stands; there is none only where no such line gives one.
pub proof fn law_encoding_is_found(header: Seq<char>)
    ensures
        match encoding_of(header) {
            None => forall|i: int|
                1 <= i < lines_of(header).len() ==> encoding_in(#[trigger] lines_of(header)[i]) is None,
            Some(e) => exists|i: int|
                1 <= i < lines_of(header).len() && encoding_in(#[trigger] lines_of(header)[i]) == Some(
                    e,
                ) && forall|k: int|
                    1 <= k < i ==> encoding_in(#[trigger] lines_of(header)[k]) is None,
        },
{
    lemma_encoding_from(lines_of(header), 1);
}

proof fn lemma_encoding_from(ls: Seq<Seq<char>>, from: int)
    requires
        from >= 1,
    ensures
        match encoding_from(ls, from) {
            None => forall|i: int|
                from <= i < ls.len() ==> encoding_in(#[trigger] ls[i]) is None,
            Some(e) => exists|i: int|
                from <= i < ls.len() && encoding_in(#[trigger] ls[i]) == Some(e) && forall|k: int|
                    from <= k < i ==> encoding_in(#[trigger] ls[k]) is None,
        },
    decreases ls.len() - from,
{
    if from < ls.len() {
        match encoding_in(ls[from]) {
            Some(e) => {
                assert(encoding_in(ls[from]) == Some(e));
            },
            None => {
                lemma_encoding_from(ls, from + 1);
                if let Some(e) = encoding_from(ls, from + 1) {
                    let i = choose|i: int|
                        from + 1 <= i < ls.len() && encoding_in(#[trigger] ls[i]) == Some(e)
                            && forall|k: int|
                            from + 1 <= k < i ==> encoding_in(#[trigger] ls[k]) is None;
                    assert(encoding_in(ls[i]) == Some(e));
                    assert forall|k: int| from <= k < i implies encoding_in(
                        #[trigger] ls[k],
                    ) is None by {
                        if k > from {
                            assert(from + 1 <= k < i);
                        }
                    }
                }
            },
        }
    }
}

/// Each encoding that a request names is decoded by its own decoder, whatever the body is: a body
/// without an encoding, or with `identity`, is taken as it is, and no other encoding is decoded.
pub proof fn law_decoders(e: Seq<char>, data: Seq<u8>)
    ensures
        decoded(coding_of(None), data) == Some(data),
        decoded(coding_of(Some("identity"@)), data) == Some(data),
        decoded(coding_of(Some("deflate"@)), data) == zlib_decoded(data),
        decoded(coding_of(Some("x-tor-lzma"@)), data) == xz_decoded(data),
        decoded(coding_of(Some("x-zstd"@)), data) == zstd_decoded(data),
        coding_of(Some(e)) is Unknown <==> e != "identity"@ && e != "deflate"@ && e
            != "x-tor-lzma"@ && e != "x-zstd"@,
        coding_of(Some(e)) is Unknown ==> decoded(coding_of(Some(e)), data) is None,
        !(coding_of(None) is Unknown),
        decode_message(coding_of(Some("deflate"@))) == "deflate decode"@,
        decode_message(coding_of(Some("x-tor-lzma"@))) == "xz decode"@,
        decode_message(coding_of(Some("x-zstd"@))) == "zstd decode"@,
{
    reveal_strlit("identity");
    reveal_strlit("deflate");
    reveal_strlit("x-tor-lzma");
    reveal_strlit("x-zstd");
    assert("identity"@.len() == 8 && "deflate"@.len() == 7);
    assert("x-tor-lzma"@.len() == 10 && "x-zstd"@.len() == 6);
}

/// A response with another status is told by the path and the status.
pub proof fn law_status_message(path: Seq<char>, status: u16)
    ensures
        status_message(path, status) == "GET "@ + path + " returned status "@ + decimal(
            status as nat,
        ),
{
}

} // verus!
