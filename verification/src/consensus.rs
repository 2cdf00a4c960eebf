//! Consensus documents of the microdescriptor flavor: what they say, their digests, and diffs
//! between them.

use sha3::Digest as _;
use std::time::{SystemTime, UNIX_EPOCH};
use tor_checkable::{ExternallySigned, Timebound};
use tor_netdoc::doc::netstatus::MdConsensus;
use vstd::prelude::*;
use vstd::utf8::encode_utf8;

use crate::cache::{digest_views, Digest};
use crate::text::{begins_with, law_begins_with, string_views, text_in};
use crate::time::Timestamp;

verus! {

/// What the sync reads of a consensus.
pub struct Consensus {
    /// The time after which it may be used.
    pub start: Option<Timestamp>,
    /// The time before which it may be used.
    pub end: Option<Timestamp>,
    /// When it becomes valid.
    pub valid_after: Timestamp,
    /// When a newer one should be looked for.
    pub fresh_until: Timestamp,
    /// When it is no longer valid.
    pub valid_until: Timestamp,
    /// The digest of the microdescriptor of each relay.
    pub digests: Vec<Digest>,
    /// The addresses of the relays, each as `ip:port`.
    pub relay_addrs: Vec<String>,
}

/// What a consensus says.
pub struct ConsensusView {
    pub start: Option<Timestamp>,
    pub end: Option<Timestamp>,
    pub valid_after: Timestamp,
    pub fresh_until: Timestamp,
    pub valid_until: Timestamp,
    pub digests: Seq<Seq<u8>>,
    pub relay_addrs: Seq<Seq<char>>,
}

impl View for Consensus {
    type V = ConsensusView;

    open spec fn view(&self) -> ConsensusView {
        ConsensusView {
            start: self.start,
            end: self.end,
            valid_after: self.valid_after,
            fresh_until: self.fresh_until,
            valid_until: self.valid_until,
            digests: digest_views(self.digests@),
            relay_addrs: string_views(self.relay_addrs@),
        }
    }
}

/// What a text says as a consensus of the microdescriptor flavor, but for the addresses of the
/// relays: the part of it that is signed, when it may first be used, its three times, and the
/// digests of the microdescriptors. `None` where it is no consensus.
pub uninterp spec fn consensus_parts(text: Seq<char>) -> Option<
    (Seq<char>, Option<Timestamp>, Seq<Timestamp>, Seq<Seq<u8>>),
>;

/// Reads a consensus with `tor_netdoc`'s `MdConsensus::parse`, and takes the signed part, its
/// first bound, its lifetime and its digests from it without any check of time or signature. What
/// it says depends on the text and nothing else: its three times are in order, and it may be used
/// from `valid_after` or some time before it. The grammar is not stated, nor which part is signed.
#[verifier::external_body]
fn read_consensus(text: &str) -> (r: Result<
    (String, Option<Timestamp>, [Timestamp; 3], Vec<Digest>),
    tor_netdoc::Error,
>)
    ensures
        match (r, consensus_parts(text@)) {
            (Ok((signed, start, times, digests)), Some((p, s, t, d))) => {
                &&& signed@ == p
                &&& start == s && times@ == t && digest_views(digests@) == d
                &&& t[0].wf() && t[1].wf() && t[2].wf()
                &&& t[0].nanos < t[1].nanos < t[2].nanos
                &&& s matches Some(at) && at.wf() && at.nanos <= t[0].nanos
            },
            (Err(_), None) => true,
            _ => false,
        },
{
    let (signed, _, doc) = MdConsensus::parse(text)?;
    let at = |t: SystemTime| match t.duration_since(UNIX_EPOCH) {
        Ok(after) => Timestamp { nanos: after.as_nanos() as i128 },
        Err(before) => Timestamp { nanos: -(before.duration().as_nanos() as i128) },
    };
    let start = doc.bounds().0.map(at);
    let doc = doc.dangerously_assume_timely().dangerously_assume_wellsigned();
    let life = doc.lifetime();
    let times = [at(life.valid_after()), at(life.fresh_until()), at(life.valid_until())];
    let digests = doc.relays().iter().map(|r| *r.md_digest()).collect();
    Ok((signed.to_string(), start, times, digests))
}

/// The texts of a list of lists.
pub open spec fn list_views(lists: Seq<Vec<String>>) -> Seq<Seq<Seq<char>>> {
    lists.map_values(|list: Vec<String>| string_views(list@))
}

/// The addresses of each relay of a consensus, each as `ip:port`; no relays where the text is no
/// consensus.
pub uninterp spec fn relay_addresses(text: Seq<char>) -> Seq<Seq<Seq<char>>>;

/// Lists the addresses of each relay of a consensus, read with `tor_netdoc`'s
/// `MdConsensus::parse`, as `SocketAddr`'s `Display` writes them. They depend on the text and
/// nothing else.
#[verifier::external_body]
fn read_relay_addresses(text: &str) -> (r: Vec<Vec<String>>)
    ensures
        list_views(r@) == relay_addresses(text@),
{
    let Ok((_, _, doc)) = MdConsensus::parse(text) else {
        return Vec::new();
    };
    let doc = doc.dangerously_assume_timely().dangerously_assume_wellsigned();
    doc.relays().iter().map(|r| r.addrs().map(|a| a.to_string()).collect()).collect()
}

/// Puts lists of texts one after the other.
fn concat_lists(lists: &Vec<Vec<String>>) -> (r: Vec<String>)
    ensures
        string_views(r@) == list_views(lists@).flatten(),
{
    let ghost all = list_views(lists@);
    let mut r: Vec<String> = Vec::new();
    let n: usize = lists.len();
    let mut i: usize = 0;
    assert(string_views(r@) =~= all.take(0).flatten_alt());
    while i < n
        invariant
            i <= n,
            n == lists@.len(),
            all == list_views(lists@),
            string_views(r@) == all.take(i as int).flatten_alt(),
        decreases n - i,
    {
        let list: &Vec<String> = &lists[i];
        let ghost before = r@;
        let ghost texts = string_views(list@);
        let m: usize = list.len();
        let mut k: usize = 0;
        assert(string_views(r@) =~= string_views(before) + texts.take(0));
        while k < m
            invariant
                k <= m,
                m == list@.len(),
                texts == string_views(list@),
                string_views(r@) == string_views(before) + texts.take(k as int),
            decreases m - k,
        {
            let ghost so_far = r@;
            r.push(list[k].clone());
            assert(string_views(r@) =~= string_views(so_far).push(texts[k as int]));
            assert(texts.take(k + 1) =~= texts.take(k as int).push(texts[k as int]));
            assert(string_views(r@) =~= string_views(before) + texts.take(k + 1));
            k += 1;
        }
        proof {
            assert(texts.take(m as int) =~= texts);
            assert(all.take(i + 1).drop_last() =~= all.take(i as int));
            assert(all.take(i + 1).last() == texts);
        }
        i += 1;
    }
    proof {
        assert(all.take(n as int) =~= all);
        all.lemma_flatten_and_flatten_alt_are_equivalent();
    }
    r
}

/// What a text says as a consensus of the microdescriptor flavor; `None` where it is none. It may
/// be used until `valid_until`.
pub open spec fn consensus_of(text: Seq<char>) -> Option<ConsensusView> {
    match consensus_parts(text) {
        Some((_, start, times, digests)) => Some(
            ConsensusView {
                start,
                end: Some(times[2]),
                valid_after: times[0],
                fresh_until: times[1],
                valid_until: times[2],
                digests,
                relay_addrs: relay_addresses(text).flatten(),
            },
        ),
        None => None,
    }
}

/// Reads a consensus, without any check of time or signature.
pub fn parse_consensus(text: &str) -> (r: Result<Consensus, tor_netdoc::Error>)
    ensures
        match (r, consensus_of(text@)) {
            (Ok(c), Some(v)) => {
                &&& c@ == v
                &&& c.valid_after.wf() && c.fresh_until.wf() && c.valid_until.wf()
                &&& c.valid_after.nanos < c.fresh_until.nanos < c.valid_until.nanos
                &&& c.end == Some(c.valid_until)
                &&& c.start matches Some(s) && s.wf() && s.nanos <= c.valid_after.nanos
            },
            (Err(_), None) => true,
            _ => false,
        },
{
    match read_consensus(text) {
        Ok((_, start, times, digests)) => Ok(
            Consensus {
                start,
                end: Some(times[2]),
                valid_after: times[0],
                fresh_until: times[1],
                valid_until: times[2],
                digests,
                relay_addrs: concat_lists(&read_relay_addresses(text)),
            },
        ),
        Err(e) => Err(e),
    }
}

/// The SHA3-256 digest of bytes.
pub uninterp spec fn sha3_256_digest(bytes: Seq<u8>) -> Seq<u8>;

/// Digests bytes with `sha3`'s `Sha3_256::digest`. The digest depends on the bytes and nothing
/// else; the algorithm is not stated.
#[verifier::external_body]
fn sha3_256(bytes: &[u8]) -> (r: [u8; 32])
    ensures
        r@ == sha3_256_digest(bytes@),
{
    sha3::Sha3_256::digest(bytes).into()
}

/// The hexadecimal digits.
pub const HEX_DIGITS: &'static str = "0123456789ABCDEF";

/// Bytes in hexadecimal: two digits for each, the higher four bits first.
pub open spec fn hex_text(bytes: Seq<u8>) -> Seq<char> {
    Seq::new(
        2 * bytes.len(),
        |i: int|
            if i % 2 == 0 {
                HEX_DIGITS@[bytes[i / 2] as int / 16]
            } else {
                HEX_DIGITS@[bytes[i / 2] as int % 16]
            },
    )
}

fn hex_digit<'a>(v: u8) -> (r: &'a str)
    requires
        v < 16,
    ensures
        r@ == seq![HEX_DIGITS@[v as int]],
{
    proof {
        reveal_strlit("0123456789ABCDEF");
    }
    let r = HEX_DIGITS.substring_ascii(v as usize, v as usize + 1);
    assert(r@ =~= seq![HEX_DIGITS@[v as int]]);
    r
}

/// Writes bytes in hexadecimal.
pub fn hex(bytes: &[u8]) -> (r: String)
    ensures
        r@ == hex_text(bytes@),
{
    let mut r = String::new();
    let n: usize = bytes.len();
    let mut i: usize = 0;
    while i < n
        invariant
            i <= n,
            n == bytes@.len(),
            r@ == hex_text(bytes@.take(i as int)),
        decreases n - i,
    {
        let b: u8 = bytes[i];
        r.append(hex_digit(b / 16));
        r.append(hex_digit(b % 16));
        assert(r@ =~= hex_text(bytes@.take(i + 1))) by {
            assert(bytes@.take(i + 1)[i as int] == b);
        }
        i += 1;
    }
    assert(bytes@.take(n as int) =~= bytes@);
    r
}

/// The digest by which a diff against a consensus is asked for: that of its signed part, in
/// hexadecimal. `None` where the text is no consensus.
pub open spec fn diff_digest(text: Seq<char>) -> Option<Seq<char>> {
    match consensus_parts(text) {
        Some((signed, _, _, _)) => Some(hex_text(sha3_256_digest(encode_utf8(signed)))),
        None => None,
    }
}

/// Gives the digest by which a diff against a consensus is asked for.
pub fn digest_for_diff(text: &str) -> (r: Option<String>)
    ensures
        text_in(r) == diff_digest(text@),
{
    match read_consensus(text) {
        Ok((signed, _, _, _)) => Some(hex(sha3_256(signed.as_str().as_bytes()).as_slice())),
        Err(_) => None,
    }
}

/// How a diff between two consensuses begins.
pub open spec fn looks_like_diff(text: Seq<char>) -> bool {
    begins_with(text, "network-status-diff-version"@)
}

/// Outside type: the error of `tor_consdiff`.
#[verifier::external_type_specification]
#[verifier::external_body]
pub struct ExDiffError(tor_consdiff::Error);

/// What a diff makes of a consensus; `None` where it cannot be applied, or does not give what it
/// says that it gives.
pub uninterp spec fn diff_applied(last: Seq<char>, diff: Seq<char>) -> Option<Seq<char>>;

/// Applies a diff with `tor_consdiff::apply_diff`, has `DiffResult::check_digest` compare the
/// outcome with the digest that the diff names, and writes it with `DiffResult`'s `Display`. The
/// result depends on the two texts and nothing else; the format of diffs is not stated.
#[verifier::external_body]
pub(crate) fn apply_diff(last: &str, diff: &str) -> (r: Result<String, tor_consdiff::Error>)
    ensures
        match (r, diff_applied(last@, diff@)) {
            (Ok(a), Some(b)) => a@ == b,
            (Err(_), None) => true,
            _ => false,
        },
{
    let applied = tor_consdiff::apply_diff(last, diff, None)?;
    applied.check_digest()?;
    Ok(applied.to_string())
}

/// The text of the consensus that a response gives: a diff is applied to the last consensus, and
/// anything else is the consensus itself.
pub open spec fn resolved_text(last: Option<Seq<char>>, response: Seq<char>) -> Option<Seq<char>> {
    if looks_like_diff(response) {
        match last {
            Some(text) => diff_applied(text, response),
            None => None,
        }
    } else {
        Some(response)
    }
}

/// The number that a hexadecimal digit stands for.
pub open spec fn hex_value(c: char) -> int {
    if '0' <= c <= '9' {
        c as int - '0' as int
    } else {
        c as int - 'A' as int + 10
    }
}

/// In hexadecimal each byte has two digits, which read back as the byte, and bytes follow each
/// other in their order.
pub proof fn law_hex(bytes: Seq<u8>, i: int)
    requires
        0 <= i < bytes.len(),
    ensures
        hex_text(bytes).len() == 2 * bytes.len(),
        ({
            let (a, b) = (hex_text(bytes)[2 * i], hex_text(bytes)[2 * i + 1]);
            &&& '0' <= a <= '9' || 'A' <= a <= 'F'
            &&& '0' <= b <= '9' || 'A' <= b <= 'F'
            &&& 16 * hex_value(a) + hex_value(b) == bytes[i]
        }),
{
    reveal_strlit("0123456789ABCDEF");
    let t = hex_text(bytes);
    assert((2 * i) / 2 == i && (2 * i) % 2 == 0);
    assert((2 * i + 1) / 2 == i && (2 * i + 1) % 2 == 1);
    let h = bytes[i] as int / 16;
    let l = bytes[i] as int % 16;
    assert(t[2 * i] == HEX_DIGITS@[h]);
    assert(t[2 * i + 1] == HEX_DIGITS@[l]);
    assert(0 <= h < 16 && 0 <= l < 16);
}

/// A response is a diff exactly where it begins as diffs do: it is then applied to the consensus
/// that is held, and gives nothing where none is. Any other response is the consensus itself.
pub proof fn law_resolution(last: Seq<char>, held: Option<Seq<char>>, rest: Seq<char>, response: Seq<char>)
    ensures
        ({
            let diff = "network-status-diff-version"@ + rest;
            &&& resolved_text(Some(last), diff) == diff_applied(last, diff)
            &&& resolved_text(None, diff) is None
        }),
        (forall|tail: Seq<char>| response != #[trigger] ("network-status-diff-version"@ + tail))
            ==> resolved_text(held, response) == Some(response),
{
    law_begins_with("network-status-diff-version"@, rest, response);
    if looks_like_diff(response) {
        let tail = response.skip("network-status-diff-version"@.len() as int);
        assert(response == "network-status-diff-version"@ + tail);
    }
}

/// What is read of a consensus is what the document says, in full: its times, the digest of every
/// relay's microdescriptor and every address of every relay, in order. The digest by which a diff
/// against it is asked for is that of its signed part.
pub proof fn law_consensus_is_read_in_full(text: Seq<char>)
    ensures
        match (consensus_parts(text), consensus_of(text)) {
            (Some((signed, start, times, digests)), Some(c)) => {
                &&& c.start == start
                &&& c.valid_after == times[0]
                &&& c.fresh_until == times[1]
                &&& c.valid_until == times[2]
                &&& c.end == Some(times[2])
                &&& c.digests == digests
                &&& c.relay_addrs == relay_addresses(text).flatten()
                &&& diff_digest(text) == Some(hex_text(sha3_256_digest(encode_utf8(signed))))
            },
            (None, None) => diff_digest(text) is None,
            _ => false,
        },
{
}

} // verus!
