//! Consensus + microdescriptor sync logic with relay-style scheduling.
//!
//! A sync is a sequence of steps: each takes what came of the last action and gives the next
//! one. The caller fetches and writes what it is told to.

use base64ct::Encoding as _;
use rand::Rng;
use vstd::prelude::*;
use vstd::utf8::{decode_utf8, encode_utf8, valid_utf8};

use crate::cache::{
    cached_digests, concatenated, digest_held, digest_views, ingested, law_retain, listed_in, microdesc_entries,
    not_cached, ConsensusCache, Digest, MicrodescCache, ResolveError,
};
use crate::consensus::{
    consensus_of, diff_digest, parse_consensus, relay_addresses, resolved_text, Consensus,
    ConsensusView,
};
use crate::json::{
    json_pretty, json_pretty_text, json_text_member, member_views, says, JsonField, JsonFieldView,
};
use crate::path::{joined_text, FilePath};
use crate::text::{
    join_strings, join_text, law_split_undoes_join, split_at_char, string_views, utf8_text,
};
use crate::time::{
    is_printable, printable, rfc3339, system_now, timestamp_text, Duration, Timestamp,
    NANOS_PER_SEC,
};

verus! {

/// Whether and why a document may not be used at some time.
#[derive(Clone, Copy, Debug, PartialEq, Eq, Structural)]
pub enum Timeliness {
    /// It may be used.
    Timely,
    /// It may be used only after this span.
    NotYet(Duration),
    /// It could have been used up to this span ago.
    Expired(Duration),
}

/// Whether a document with these bounds may be used: strictly between them.
pub open spec fn timeliness(
    start: Option<Timestamp>,
    end: Option<Timestamp>,
    now: Timestamp,
) -> Timeliness {
    match (start, end) {
        (Some(s), _) if now.nanos <= s.nanos => Timeliness::NotYet(
            Duration { nanos: (s.nanos - now.nanos) as u128 },
        ),
        (_, Some(e)) if e.nanos <= now.nanos => Timeliness::Expired(
            Duration { nanos: (now.nanos - e.nanos) as u128 },
        ),
        _ => Timeliness::Timely,
    }
}

/// Tests whether a document with these bounds may be used.
pub fn check_valid_at(start: Option<Timestamp>, end: Option<Timestamp>, now: Timestamp) -> (r:
    Timeliness)
    requires
        now.wf(),
        start matches Some(s) ==> s.wf(),
        end matches Some(e) ==> e.wf(),
    ensures
        r == timeliness(start, end, now),
{
    if let Some(s) = start {
        if now.nanos <= s.nanos {
            return Timeliness::NotYet(Duration { nanos: (s.nanos - now.nanos) as u128 });
        }
    }
    if let Some(e) = end {
        if e.nanos <= now.nanos {
            return Timeliness::Expired(Duration { nanos: (now.nanos - e.nanos) as u128 });
        }
    }
    Timeliness::Timely
}

/// How many microdescriptors are asked for at a time.
pub const BATCH_SIZE: usize = 500;

/// A byte of a sequence, and 0 after its end.
pub open spec fn byte_or_zero(bytes: Seq<u8>, k: int) -> int {
    if 0 <= k < bytes.len() {
        bytes[k] as int
    } else {
        0
    }
}

/// The group `i` of six bits, in order from the highest bit of the first byte.
pub open spec fn six_bits(bytes: Seq<u8>, i: int) -> int {
    let k = 3 * i / 4;
    let (a, b) = (byte_or_zero(bytes, k), byte_or_zero(bytes, k + 1));
    if i % 4 == 0 {
        a / 4
    } else if i % 4 == 1 {
        a % 4 * 16 + b / 16
    } else if i % 4 == 2 {
        a % 16 * 4 + b / 64
    } else {
        a % 64
    }
}

/// The character of base64 for six bits.
pub open spec fn base64_char(v: int) -> char {
    if v < 26 {
        (v + 'A' as u32) as u32 as char
    } else if v < 52 {
        (v - 26 + 'a' as u32) as u32 as char
    } else if v < 62 {
        (v - 52 + '0' as u32) as u32 as char
    } else if v == 62 {
        '+'
    } else {
        '/'
    }
}

/// Bytes in base64 without padding: a character for each group of six bits, the last one filled
/// up with zeros.
pub open spec fn base64_text(bytes: Seq<u8>) -> Seq<char> {
    Seq::new(
        ((4 * bytes.len() + 2) / 3) as nat,
        |i: int| base64_char(six_bits(bytes, i)),
    )
}

/// Writes bytes in base64 without padding, with `base64ct::Base64Unpadded::encode_string`.
#[verifier::external_body]
fn base64(bytes: &[u8]) -> (r: String)
    requires
        bytes@.len() <= usize::MAX / 4,
    ensures
        r@ == base64_text(bytes@),
{
    base64ct::Base64Unpadded::encode_string(bytes)
}

/// No text in base64 has a hyphen.
proof fn lemma_no_hyphen(bytes: Seq<u8>)
    ensures
        !base64_text(bytes).contains('-'),
{
    let t = base64_text(bytes);
    assert forall|i: int| 0 <= i < t.len() implies t[i] != '-' by {
        let v = six_bits(bytes, i);
        assert(0 <= v < 64);
    }
}

/// The digests as they are written in a request.
pub open spec fn encoded(digests: Seq<Seq<u8>>) -> Seq<Seq<char>> {
    digests.map_values(|d: Seq<u8>| base64_text(d))
}

/// The path of a request for these microdescriptors.
pub open spec fn batch_path(digests: Seq<Seq<u8>>) -> Seq<char> {
    "/tor/micro/d/"@ + join_text(encoded(digests), "-"@)
}

/// The number of requests for `n` microdescriptors.
pub open spec fn batch_count(n: int) -> int {
    (n + BATCH_SIZE - 1) / BATCH_SIZE as int
}

/// The digests of the request `k`.
pub open spec fn batch<A>(all: Seq<A>, k: int) -> Seq<A> {
    let from = k * BATCH_SIZE;
    let to = if from + BATCH_SIZE < all.len() {
        from + BATCH_SIZE
    } else {
        all.len() as int
    };
    all.subrange(from, to)
}

/// The paths of the requests for these microdescriptors.
pub open spec fn batch_paths(missing: Seq<Seq<u8>>) -> Seq<Seq<char>> {
    Seq::new(batch_count(missing.len() as int) as nat, |k: int| batch_path(batch(missing, k)))
}

/// The first batches, one after the other.
pub open spec fn batches_up_to<A>(all: Seq<A>, k: int) -> Seq<A>
    decreases k,
{
    if k <= 0 {
        seq![]
    } else {
        batches_up_to(all, k - 1) + batch(all, k - 1)
    }
}

proof fn lemma_batches_up_to<A>(all: Seq<A>, k: int)
    requires
        0 <= k <= batch_count(all.len() as int),
    ensures
        batches_up_to(all, k) == all.take(
            if k * BATCH_SIZE < all.len() {
                k * BATCH_SIZE
            } else {
                all.len() as int
            },
        ),
    decreases k,
{
    if k > 0 {
        lemma_batches_up_to(all, k - 1);
        let mid = (k - 1) * BATCH_SIZE;
        assert(mid < all.len());
        let to = if k * BATCH_SIZE < all.len() {
            k * BATCH_SIZE
        } else {
            all.len() as int
        };
        assert(all.take(mid) + all.subrange(mid, to) =~= all.take(to));
    } else {
        assert(all.take(0) =~= seq![]);
    }
}

/// Every missing microdescriptor is asked for once, in order, in batches that are not empty and
/// not too large.
pub proof fn law_batches_cover<A>(missing: Seq<A>)
    ensures
        batches_up_to(missing, batch_count(missing.len() as int)) == missing,
        forall|k: int|
            0 <= k < batch_count(missing.len() as int) ==> 0 < (#[trigger] batch(missing, k)).len()
                <= BATCH_SIZE,
{
    let n = batch_count(missing.len() as int);
    lemma_batches_up_to(missing, n);
    assert(n * BATCH_SIZE >= missing.len());
    assert(missing.take(missing.len() as int) =~= missing);
}

/// Writes the path of a request for the digests from `from` up to `to`. The digests can be read
/// back from it: they are what stands between its hyphens.
fn path_for(missing: &Vec<Digest>, from: usize, to: usize) -> (r: String)
    requires
        from < to <= missing@.len(),
    ensures
        r@ == batch_path(digest_views(missing@).subrange(from as int, to as int)),
        exists|tail: Seq<char>|
            r@ == #[trigger] ("/tor/micro/d/"@ + tail) && split_at_char(tail, '-') == encoded(
                digest_views(missing@).subrange(from as int, to as int),
            ),
{
    let ghost part = digest_views(missing@).subrange(from as int, to as int);
    let mut texts: Vec<String> = Vec::new();
    let mut i: usize = from;
    assert(string_views(texts@) =~= encoded(part.take(0)));
    while i < to
        invariant
            from <= i <= to <= missing@.len(),
            part == digest_views(missing@).subrange(from as int, to as int),
            string_views(texts@) == encoded(part.take(i - from)),
            forall|k: int| 0 <= k < texts@.len() ==> !(#[trigger] texts@[k])@.contains('-'),
        decreases to - i,
    {
        let ghost before = texts@;
        let t = base64(missing[i].as_slice());
        assert(part[i - from] == missing@[i as int]@);
        proof {
            lemma_no_hyphen(missing@[i as int]@);
        }
        texts.push(t);
        proof {
            assert(part.take(i - from + 1) =~= part.take(i - from).push(part[i - from]));
            assert(encoded(part.take(i - from + 1)) =~= encoded(part.take(i - from)).push(t@));
            assert(string_views(texts@) =~= string_views(before).push(t@));
        }
        i += 1;
    }
    assert(part.take(to - from) =~= part);
    let mut r = "/tor/micro/d/".to_string();
    let tail = join_strings(&texts, "-");
    r.append(tail.as_str());
    proof {
        reveal_strlit("-");
        assert("-"@ =~= seq!['-']);
        let e = encoded(part);
        assert forall|k: int| 0 <= k < e.len() implies !(#[trigger] e[k]).contains('-') by {
            assert(e[k] == texts@[k]@);
        }
        law_split_undoes_join(e, '-');
        assert(r@ == "/tor/micro/d/"@ + tail@);
    }
    r
}

/// Writes the paths of the requests for these microdescriptors.
pub fn microdesc_paths(missing: &Vec<Digest>) -> (r: Vec<String>)
    ensures
        string_views(r@) == batch_paths(digest_views(missing@)),
{
    let mut r: Vec<String> = Vec::new();
    let ghost all = digest_views(missing@);
    let n: usize = missing.len();
    let mut from: usize = 0;
    while from < n
        invariant
            n == missing@.len(),
            all == digest_views(missing@),
            from == n || from == r@.len() * BATCH_SIZE,
            from <= n,
            r@.len() <= batch_count(n as int),
            from == n ==> r@.len() == batch_count(n as int),
            forall|k: int|
                0 <= k < r@.len() ==> (#[trigger] r@[k])@ == batch_path(batch(all, k)),
        decreases n - from,
    {
        let to: usize = if n - from > BATCH_SIZE {
            from + BATCH_SIZE
        } else {
            n
        };
        let p = path_for(missing, from, to);
        r.push(p);
        from = to;
    }
    assert(string_views(r@) =~= batch_paths(all));
    r
}

/// Half of the time between the two points, and a quarter of an hour where they are in reverse.
pub open spec fn half_interval(fresh_until: Timestamp, valid_until: Timestamp) -> int {
    if fresh_until.nanos <= valid_until.nanos {
        (valid_until.nanos - fresh_until.nanos) / 2
    } else {
        900 * NANOS_PER_SEC
    }
}

/// The time from `now` until `offset` after `fresh_until`; 0 where that is past.
pub open spec fn delay_until(fresh_until: Timestamp, offset: int, now: Timestamp) -> int {
    if fresh_until.nanos + offset <= now.nanos {
        0
    } else {
        fresh_until.nanos + offset - now.nanos
    }
}

/// A span chosen at random with `rand`'s `random_range`, from nothing up to the one given, in
/// seconds and nanoseconds. Nothing is stated of which one it is.
#[verifier::external_body]
fn random_up_to(secs: u64, nanos: u32) -> (r: (u64, u32))
    requires
        nanos < NANOS_PER_SEC,
    ensures
        r.1 < NANOS_PER_SEC,
        r.0 * NANOS_PER_SEC + r.1 <= secs * NANOS_PER_SEC + nanos,
{
    let most = std::time::Duration::new(secs, nanos);
    let chosen = rand::rng().random_range(std::time::Duration::ZERO..=most);
    (chosen.as_secs(), chosen.subsec_nanos())
}

/// Half of the time between the two points, and a quarter of an hour where they are in reverse.
pub fn half_of_interval(fresh_until: Timestamp, valid_until: Timestamp) -> (r: Duration)
    requires
        fresh_until.wf(),
        valid_until.wf(),
    ensures
        r.nanos == half_interval(fresh_until, valid_until),
        r.wf(),
{
    if fresh_until.nanos <= valid_until.nanos {
        Duration { nanos: (valid_until.nanos - fresh_until.nanos) as u128 / 2 }
    } else {
        Duration { nanos: 900 * NANOS_PER_SEC }
    }
}

/// The time from `now` until `offset` after `fresh_until`; 0 where that is past.
pub fn sync_delay(fresh_until: Timestamp, offset: Duration, now: Timestamp) -> (r: Duration)
    requires
        fresh_until.wf(),
        offset.wf(),
        now.wf(),
    ensures
        r.nanos == delay_until(fresh_until, offset.nanos as int, now),
{
    let target: i128 = fresh_until.nanos + offset.nanos as i128;
    if target <= now.nanos {
        Duration { nanos: 0 }
    } else {
        Duration { nanos: (target - now.nanos) as u128 }
    }
}

/// Whether a delay, counted from `now`, leads to some time in the first half-interval after
/// `fresh_until`, or to `now` where that time is past.
pub open spec fn in_first_half(
    fresh_until: Timestamp,
    valid_until: Timestamp,
    now: Timestamp,
    delay: int,
) -> bool {
    exists|offset: int|
        0 <= offset <= half_interval(fresh_until, valid_until) && delay == #[trigger] delay_until(
            fresh_until,
            offset,
            now,
        )
}

/// The delay from `now` until a random time in the first half-interval after `fresh_until`.
pub fn relay_sync_delay_at(fresh_until: Timestamp, valid_until: Timestamp, now: Timestamp) -> (r:
    Duration)
    requires
        fresh_until.wf(),
        valid_until.wf(),
        now.wf(),
    ensures
        in_first_half(fresh_until, valid_until, now, r.nanos as int),
{
    let half = half_of_interval(fresh_until, valid_until);
    let secs: u64 = (half.nanos / NANOS_PER_SEC) as u64;
    let chosen = random_up_to(secs, (half.nanos % NANOS_PER_SEC) as u32);
    let offset = Duration { nanos: chosen.0 as u128 * NANOS_PER_SEC + chosen.1 as u128 };
    let r = sync_delay(fresh_until, offset, now);
    assert(r.nanos == delay_until(fresh_until, offset.nanos as int, now));
    r
}

/// Compute the relay-style sync delay: random time in the first half-interval
/// after `fresh_until`.
///
/// Per dir-spec: "the cache downloads a new consensus document at a randomly
/// chosen time in the first half-interval after its current consensus stops
/// being fresh."
///
/// That `now` is what the clock shows is not stated.
pub fn relay_sync_delay(fresh_until: Timestamp, valid_until: Timestamp) -> (r: Duration)
    requires
        fresh_until.wf(),
        valid_until.wf(),
    ensures
        exists|now: Timestamp|
            now.wf() && #[trigger] in_first_half(fresh_until, valid_until, now, r.nanos as int),
{
    let now = system_now();
    let r = relay_sync_delay_at(fresh_until, valid_until, now);
    assert(in_first_half(fresh_until, valid_until, now, r.nanos as int));
    r
}

/// A sync that is planned while the consensus is fresh comes in the first half-interval after it
/// stops being fresh; one that is planned later comes no later than that, or at once.
pub proof fn law_sync_in_first_half(
    fresh_until: Timestamp,
    valid_until: Timestamp,
    offset: int,
    now: Timestamp,
)
    requires
        0 <= offset <= half_interval(fresh_until, valid_until),
    ensures
        ({
            let at = now.nanos + delay_until(fresh_until, offset, now);
            &&& now.nanos <= fresh_until.nanos ==> fresh_until.nanos <= at <= fresh_until.nanos
                + half_interval(fresh_until, valid_until)
            &&& at == now.nanos || at <= fresh_until.nanos + half_interval(
                fresh_until,
                valid_until,
            )
            &&& now.nanos <= at
        }),
{
}

/// The intermediate file of an atomic write and the file itself.
pub open spec fn atomic_files(dir: Seq<u8>, name: Seq<char>) -> (Seq<u8>, Seq<u8>) {
    (joined_text(dir, name + ".tmp"@), joined_text(dir, name))
}

/// The two files of an atomic write of `dir/name`: the data is written to the first, which is
/// then renamed to the second.
pub fn atomic_write(dir: &FilePath, name: &str) -> (r: (FilePath, FilePath))
    ensures
        (r.0@, r.1@) == atomic_files(dir@, name@),
{
    let mut tmp = name.to_string();
    tmp.append(".tmp");
    (dir.join(tmp.as_str()), dir.join(name))
}

/// What is cached.
pub type CacheView = Seq<(Seq<u8>, Seq<char>)>;

/// The number of bytes of a text in UTF-8.
pub open spec fn byte_count(text: Seq<char>) -> u64 {
    encode_utf8(text).len() as u64
}

/// The members of the description of a sync.
pub open spec fn metadata_members(
    c: ConsensusView,
    certs: Seq<char>,
    cache: CacheView,
    now: Timestamp,
) -> Seq<(Seq<char>, JsonFieldView)> {
    seq![
        ("consensus_flavor"@, JsonFieldView::Text("microdesc"@)),
        ("valid_after"@, JsonFieldView::Text(timestamp_text(c.valid_after))),
        ("fresh_until"@, JsonFieldView::Text(timestamp_text(c.fresh_until))),
        ("valid_until"@, JsonFieldView::Text(timestamp_text(c.valid_until))),
        ("num_relays"@, JsonFieldView::Number(c.digests.len() as u64)),
        ("authority_certs_bytes"@, JsonFieldView::Number(byte_count(certs))),
        ("num_microdescs_in_cache"@, JsonFieldView::Number(cache.len() as u64)),
        (
            "num_microdescs_missing"@,
            JsonFieldView::Number(c.digests.filter(not_cached(cache)).len() as u64),
        ),
        ("microdescs_bytes"@, JsonFieldView::Number(byte_count(concatenated(cache)))),
        ("synced_at"@, JsonFieldView::Text(timestamp_text(now))),
    ]
}

/// Whether the times of a consensus have years of four digits.
pub open spec fn printable_times(c: ConsensusView) -> bool {
    printable(c.valid_after) && printable(c.fresh_until) && printable(c.valid_until)
}

/// How far a sync is: what it waits for.
pub enum SyncStage {
    /// The response with the consensus.
    AwaitConsensus,
    /// The response with the authority certificates.
    AwaitCerts { text: String, consensus: Consensus },
    /// The response to the request number `next` for microdescriptors.
    AwaitBatch {
        text: String,
        consensus: Consensus,
        certs: String,
        paths: Vec<String>,
        next: usize,
    },
    /// The file number `file` to be written.
    AwaitWrite { text: String, consensus: Consensus, certs: String, file: usize },
    /// Nothing.
    Finished,
}

/// What a stage says.
pub enum StageView {
    AwaitConsensus,
    AwaitCerts { text: Seq<char>, consensus: ConsensusView },
    AwaitBatch {
        text: Seq<char>,
        consensus: ConsensusView,
        certs: Seq<char>,
        paths: Seq<Seq<char>>,
        next: int,
    },
    AwaitWrite { text: Seq<char>, consensus: ConsensusView, certs: Seq<char>, file: int },
    Finished,
}

impl View for SyncStage {
    type V = StageView;

    open spec fn view(&self) -> StageView {
        match self {
            SyncStage::AwaitConsensus => StageView::AwaitConsensus,
            SyncStage::AwaitCerts { text, consensus } => StageView::AwaitCerts {
                text: text@,
                consensus: consensus@,
            },
            SyncStage::AwaitBatch { text, consensus, certs, paths, next } => StageView::AwaitBatch {
                text: text@,
                consensus: consensus@,
                certs: certs@,
                paths: string_views(paths@),
                next: *next as int,
            },
            SyncStage::AwaitWrite { text, consensus, certs, file } => StageView::AwaitWrite {
                text: text@,
                consensus: consensus@,
                certs: certs@,
                file: *file as int,
            },
            SyncStage::Finished => StageView::Finished,
        }
    }
}

/// What came of an action.
pub enum SyncEvent {
    /// The body of a response.
    Fetched(Vec<u8>),
    /// The request failed.
    FetchFailed,
    /// The file was written.
    Written,
    /// The file could not be written.
    WriteFailed,
}

/// What an event says.
pub enum EventView {
    Fetched(Seq<u8>),
    FetchFailed,
    Written,
    WriteFailed,
}

impl View for SyncEvent {
    type V = EventView;

    open spec fn view(&self) -> EventView {
        match self {
            SyncEvent::Fetched(b) => EventView::Fetched(b@),
            SyncEvent::FetchFailed => EventView::FetchFailed,
            SyncEvent::Written => EventView::Written,
            SyncEvent::WriteFailed => EventView::WriteFailed,
        }
    }
}

/// What the caller does next.
pub enum SyncAction {
    /// Request a document from a directory cache.
    Fetch { path: String, diff_from: Option<String> },
    /// Write a file, atomically.
    Write { name: String, data: Vec<u8> },
    /// The sync is done: permit connections to the relays at these addresses and to no others. The
    /// next sync is due some time after `fresh_until`.
    Finish { fresh_until: Timestamp, valid_until: Timestamp, relay_addrs: Vec<String> },
}

/// What an action says.
pub enum ActionView {
    Fetch { path: Seq<char>, diff_from: Option<Seq<char>> },
    Write { name: Seq<char>, data: Seq<u8> },
    Finish { fresh_until: Timestamp, valid_until: Timestamp, relay_addrs: Seq<Seq<char>> },
}

impl View for SyncAction {
    type V = ActionView;

    open spec fn view(&self) -> ActionView {
        match self {
            SyncAction::Fetch { path, diff_from } => ActionView::Fetch {
                path: path@,
                diff_from: match diff_from {
                    Some(hex) => Some(hex@),
                    None => None,
                },
            },
            SyncAction::Write { name, data } => ActionView::Write { name: name@, data: data@ },
            SyncAction::Finish { fresh_until, valid_until, relay_addrs } => ActionView::Finish {
                fresh_until: *fresh_until,
                valid_until: *valid_until,
                relay_addrs: string_views(relay_addrs@),
            },
        }
    }
}

/// Why a sync ends without success.
pub enum SyncError {
    /// A request failed without which the sync cannot go on.
    Fetch,
    /// A response is not text; the message.
    NotText(String),
    /// The response is a diff, and no consensus is held to apply it to.
    NoConsensus,
    /// The response is a diff that could not be applied.
    Diff(tor_consdiff::Error),
    /// The consensus could not be parsed.
    Parse(tor_netdoc::Error),
    /// The consensus may not be used now.
    NotTimely(Timeliness),
    /// A time has no year of four digits.
    Unprintable,
    /// The description of the sync could not be written as JSON.
    Metadata(serde_json::Error),
    /// A file could not be written.
    Write,
    /// The event is none that the stage waits for.
    OutOfOrder,
}

/// What an error says.
pub enum FailureView {
    Fetch,
    NotText(Seq<char>),
    NoConsensus,
    Diff,
    Parse,
    NotTimely(Timeliness),
    Unprintable,
    Metadata,
    Write,
    OutOfOrder,
}

impl View for SyncError {
    type V = FailureView;

    open spec fn view(&self) -> FailureView {
        match self {
            SyncError::Fetch => FailureView::Fetch,
            SyncError::NotText(m) => FailureView::NotText(m@),
            SyncError::NoConsensus => FailureView::NoConsensus,
            SyncError::Diff(_) => FailureView::Diff,
            SyncError::Parse(_) => FailureView::Parse,
            SyncError::NotTimely(t) => FailureView::NotTimely(*t),
            SyncError::Unprintable => FailureView::Unprintable,
            SyncError::Metadata(_) => FailureView::Metadata,
            SyncError::Write => FailureView::Write,
            SyncError::OutOfOrder => FailureView::OutOfOrder,
        }
    }
}

/// What comes of a step: the next stage, the next action and what is cached then, or a failure.
pub enum StepView {
    Go(StageView, ActionView, CacheView),
    Fail(FailureView, CacheView),
}

/// The action that asks for a document.
pub open spec fn fetch(path: Seq<char>) -> ActionView {
    ActionView::Fetch { path, diff_from: None }
}

/// The step that has the file number `file` written, or ends the sync after the last one: the
/// consensus, the certificates, the microdescriptors, the description of the sync.
pub open spec fn write_step(
    text: Seq<char>,
    c: ConsensusView,
    certs: Seq<char>,
    file: int,
    cache: CacheView,
    now: Timestamp,
) -> StepView {
    let stage = StageView::AwaitWrite { text, consensus: c, certs, file };
    if file == 0 {
        StepView::Go(
            stage,
            ActionView::Write { name: "consensus-microdesc"@, data: encode_utf8(text) },
            cache,
        )
    } else if file == 1 {
        StepView::Go(
            stage,
            ActionView::Write { name: "authority-certs"@, data: encode_utf8(certs) },
            cache,
        )
    } else if file == 2 {
        StepView::Go(
            stage,
            ActionView::Write { name: "microdescs"@, data: encode_utf8(concatenated(cache)) },
            cache,
        )
    } else if file == 3 {
        if !(printable_times(c) && printable(now)) {
            StepView::Fail(FailureView::Unprintable, cache)
        } else {
            match json_pretty_text(metadata_members(c, certs, cache, now)) {
                Some(json) => StepView::Go(
                    stage,
                    ActionView::Write { name: "metadata.json"@, data: encode_utf8(json) },
                    cache,
                ),
                None => StepView::Fail(FailureView::Metadata, cache),
            }
        }
    } else {
        StepView::Go(
            StageView::Finished,
            ActionView::Finish {
                fresh_until: c.fresh_until,
                valid_until: c.valid_until,
                relay_addrs: c.relay_addrs,
            },
            cache,
        )
    }
}

/// The step that makes the request number `next` for microdescriptors, or has the first file
/// written where there are no more requests.
pub open spec fn batch_step(
    text: Seq<char>,
    c: ConsensusView,
    certs: Seq<char>,
    paths: Seq<Seq<char>>,
    next: int,
    cache: CacheView,
    now: Timestamp,
) -> StepView {
    if next < paths.len() {
        StepView::Go(
            StageView::AwaitBatch { text, consensus: c, certs, paths, next },
            fetch(paths[next]),
            cache,
        )
    } else {
        write_step(text, c, certs, 0, cache, now)
    }
}

/// The step that takes the text of a consensus: it has to parse and to be usable now.
pub open spec fn resolved_step(text: Seq<char>, cache: CacheView, now: Timestamp) -> StepView {
    match consensus_of(text) {
        None => StepView::Fail(FailureView::Parse, cache),
        Some(c) => if timeliness(c.start, c.end, now) != Timeliness::Timely {
            StepView::Fail(FailureView::NotTimely(timeliness(c.start, c.end, now)), cache)
        } else if !printable_times(c) {
            StepView::Fail(FailureView::Unprintable, cache)
        } else {
            StepView::Go(
                StageView::AwaitCerts { text, consensus: c },
                fetch("/tor/keys/all"@),
                cache,
            )
        },
    }
}

/// The step that takes the response with the consensus, with `held` the last one.
pub open spec fn consensus_step(
    body: Seq<u8>,
    held: Option<Seq<char>>,
    cache: CacheView,
    now: Timestamp,
) -> StepView {
    if !valid_utf8(body) {
        StepView::Fail(FailureView::NotText("consensus response is not valid UTF-8"@), cache)
    } else {
        match resolved_text(held, decode_utf8(body)) {
            Some(text) => resolved_step(text, cache, now),
            None => StepView::Fail(
                if held is None {
                    FailureView::NoConsensus
                } else {
                    FailureView::Diff
                },
                cache,
            ),
        }
    }
}

/// The step that takes the certificates: what the consensus no longer lists is forgotten, and
/// what is missing is asked for in batches.
pub open spec fn certs_step(
    text: Seq<char>,
    c: ConsensusView,
    body: Seq<u8>,
    cache: CacheView,
    now: Timestamp,
) -> StepView {
    if !valid_utf8(body) {
        StepView::Fail(FailureView::NotText("authority certs are not valid UTF-8"@), cache)
    } else {
        let kept = cache.filter(listed_in(c.digests));
        let paths = batch_paths(c.digests.filter(not_cached(kept)));
        batch_step(text, c, decode_utf8(body), paths, 0, kept, now)
    }
}

/// What comes of an event at a stage, with `held` the consensus of the last sync.
pub open spec fn sync_step(
    stage: StageView,
    event: EventView,
    held: Option<Seq<char>>,
    cache: CacheView,
    now: Timestamp,
) -> StepView {
    match (stage, event) {
        (StageView::AwaitConsensus, EventView::Fetched(body)) => consensus_step(
            body,
            held,
            cache,
            now,
        ),
        (StageView::AwaitConsensus, EventView::FetchFailed) => StepView::Fail(
            FailureView::Fetch,
            cache,
        ),
        (StageView::AwaitCerts { text, consensus }, EventView::Fetched(body)) => certs_step(
            text,
            consensus,
            body,
            cache,
            now,
        ),
        (StageView::AwaitCerts { .. }, EventView::FetchFailed) => StepView::Fail(
            FailureView::Fetch,
            cache,
        ),
        (
            StageView::AwaitBatch { text, consensus, certs, paths, next },
            EventView::Fetched(body),
        ) => if valid_utf8(body) {
            batch_step(
                text,
                consensus,
                certs,
                paths,
                next + 1,
                ingested(cache, microdesc_entries(decode_utf8(body))),
                now,
            )
        } else {
            StepView::Fail(
                FailureView::NotText("microdesc response is not valid UTF-8"@),
                cache,
            )
        },
        (
            StageView::AwaitBatch { text, consensus, certs, paths, next },
            EventView::FetchFailed,
        ) => batch_step(text, consensus, certs, paths, next + 1, cache, now),
        (StageView::AwaitWrite { text, consensus, certs, file }, EventView::Written) => write_step(
            text,
            consensus,
            certs,
            file + 1,
            cache,
            now,
        ),
        (StageView::AwaitWrite { .. }, EventView::WriteFailed) => StepView::Fail(
            FailureView::Write,
            cache,
        ),
        _ => StepView::Fail(FailureView::OutOfOrder, cache),
    }
}

/// What an executed step says.
pub open spec fn outcome(
    r: Result<(SyncStage, SyncAction), SyncError>,
    cache: CacheView,
) -> StepView {
    match r {
        Ok((stage, action)) => StepView::Go(stage@, action@, cache),
        Err(e) => StepView::Fail(e@, cache),
    }
}

fn text_bytes(text: &str) -> (r: Vec<u8>)
    ensures
        r@ == encode_utf8(text@),
{
    vstd::slice::slice_to_vec(text.as_bytes())
}

fn member(name: &str, field: JsonField) -> (r: (String, JsonField))
    ensures
        r.0@ == name@,
        r.1 == field,
{
    (name.to_string(), field)
}

/// A reader of the description finds its texts: no two members have one name.
proof fn lemma_metadata_says(c: ConsensusView, certs: Seq<char>, cache: CacheView, now: Timestamp)
    ensures
        ({
            let members = metadata_members(c, certs, cache, now);
            &&& says(members, "consensus_flavor"@, "microdesc"@)
            &&& says(members, "valid_after"@, timestamp_text(c.valid_after))
            &&& says(members, "fresh_until"@, timestamp_text(c.fresh_until))
            &&& says(members, "valid_until"@, timestamp_text(c.valid_until))
            &&& says(members, "synced_at"@, timestamp_text(now))
        }),
{
    reveal_strlit("consensus_flavor");
    reveal_strlit("valid_after");
    reveal_strlit("fresh_until");
    reveal_strlit("valid_until");
    reveal_strlit("num_relays");
    reveal_strlit("authority_certs_bytes");
    reveal_strlit("num_microdescs_in_cache");
    reveal_strlit("num_microdescs_missing");
    reveal_strlit("microdescs_bytes");
    reveal_strlit("synced_at");
    let members = metadata_members(c, certs, cache, now);
    assert("consensus_flavor"@[0] == 'c' && "microdescs_bytes"@[0] == 'm');
    assert("valid_after"@[0] == 'v' && "valid_after"@[6] == 'a' && "valid_until"@[6] == 'u');
    assert("fresh_until"@[0] == 'f' && "valid_until"@[0] == 'v');
    assert(members[0] == ("consensus_flavor"@, JsonFieldView::Text("microdesc"@)));
    assert(members[1] == ("valid_after"@, JsonFieldView::Text(timestamp_text(c.valid_after))));
    assert(members[2] == ("fresh_until"@, JsonFieldView::Text(timestamp_text(c.fresh_until))));
    assert(members[3] == ("valid_until"@, JsonFieldView::Text(timestamp_text(c.valid_until))));
    assert(members[9] == ("synced_at"@, JsonFieldView::Text(timestamp_text(now))));
}

/// Describes a sync as a JSON document.
pub fn metadata(consensus: &Consensus, certs: &str, cache: &MicrodescCache, now: Timestamp) -> (r:
    Result<String, SyncError>)
    ensures
        match r {
            Ok(json) => {
                &&& printable_times(consensus@) && printable(now)
                &&& json_pretty_text(metadata_members(consensus@, certs@, cache@, now)) == Some(
                    json@,
                )
                &&& json_text_member(json@, "consensus_flavor"@) == Some("microdesc"@)
                &&& json_text_member(json@, "valid_after"@) == Some(
                    timestamp_text(consensus@.valid_after),
                )
                &&& json_text_member(json@, "fresh_until"@) == Some(
                    timestamp_text(consensus@.fresh_until),
                )
                &&& json_text_member(json@, "valid_until"@) == Some(
                    timestamp_text(consensus@.valid_until),
                )
                &&& json_text_member(json@, "synced_at"@) == Some(timestamp_text(now))
            },
            Err(SyncError::Unprintable) => !(printable_times(consensus@) && printable(now)),
            Err(SyncError::Metadata(_)) => {
                &&& printable_times(consensus@) && printable(now)
                &&& json_pretty_text(metadata_members(consensus@, certs@, cache@, now)) is None
            },
            Err(_) => false,
        },
{
    if !(is_printable(consensus.valid_after) && is_printable(consensus.fresh_until)
        && is_printable(consensus.valid_until) && is_printable(now)) {
        return Err(SyncError::Unprintable);
    }
    let missing = cache.missing(&consensus.digests);
    let blob = cache.to_concatenated();
    assert(missing@.len() == digest_views(missing@).len());
    let mut m: Vec<(String, JsonField)> = Vec::new();
    m.push(member("consensus_flavor", JsonField::Text("microdesc".to_string())));
    m.push(member("valid_after", JsonField::Text(rfc3339(consensus.valid_after))));
    m.push(member("fresh_until", JsonField::Text(rfc3339(consensus.fresh_until))));
    m.push(member("valid_until", JsonField::Text(rfc3339(consensus.valid_until))));
    m.push(member("num_relays", JsonField::Number(consensus.digests.len() as u64)));
    m.push(
        member("authority_certs_bytes", JsonField::Number(certs.as_bytes().len() as u64)),
    );
    m.push(member("num_microdescs_in_cache", JsonField::Number(cache.len() as u64)));
    m.push(member("num_microdescs_missing", JsonField::Number(missing.len() as u64)));
    m.push(
        member("microdescs_bytes", JsonField::Number(blob.as_str().as_bytes().len() as u64)),
    );
    m.push(member("synced_at", JsonField::Text(rfc3339(now))));
    let ghost members = metadata_members(consensus@, certs@, cache@, now);
    assert(member_views(m@) =~= members);
    proof {
        lemma_metadata_says(consensus@, certs@, cache@, now);
    }
    match json_pretty(&m) {
        Ok(json) => Ok(json),
        Err(e) => Err(SyncError::Metadata(e)),
    }
}

fn write_next(
    text: String,
    consensus: Consensus,
    certs: String,
    file: usize,
    cache: &MicrodescCache,
    now: Timestamp,
) -> (r: Result<(SyncStage, SyncAction), SyncError>)
    ensures
        outcome(r, cache@) == write_step(text@, consensus@, certs@, file as int, cache@, now),
{
    let name;
    let data: Vec<u8>;
    if file == 0 {
        name = "consensus-microdesc";
        data = text_bytes(text.as_str());
    } else if file == 1 {
        name = "authority-certs";
        data = text_bytes(certs.as_str());
    } else if file == 2 {
        name = "microdescs";
        data = text_bytes(cache.to_concatenated().as_str());
    } else if file == 3 {
        match metadata(&consensus, certs.as_str(), cache, now) {
            Ok(json) => {
                name = "metadata.json";
                data = text_bytes(json.as_str());
            },
            Err(e) => {
                return Err(e);
            },
        }
    } else {
        let action = SyncAction::Finish {
            fresh_until: consensus.fresh_until,
            valid_until: consensus.valid_until,
            relay_addrs: consensus.relay_addrs,
        };
        return Ok((SyncStage::Finished, action));
    }
    let action = SyncAction::Write { name: name.to_string(), data };
    Ok((SyncStage::AwaitWrite { text, consensus, certs, file }, action))
}

fn batch_next(
    text: String,
    consensus: Consensus,
    certs: String,
    paths: Vec<String>,
    next: usize,
    cache: &MicrodescCache,
    now: Timestamp,
) -> (r: Result<(SyncStage, SyncAction), SyncError>)
    ensures
        outcome(r, cache@) == batch_step(
            text@,
            consensus@,
            certs@,
            string_views(paths@),
            next as int,
            cache@,
            now,
        ),
{
    if next < paths.len() {
        let action = SyncAction::Fetch { path: paths[next].clone(), diff_from: None };
        assert(action@ == fetch(string_views(paths@)[next as int]));
        Ok((SyncStage::AwaitBatch { text, consensus, certs, paths, next }, action))
    } else {
        write_next(text, consensus, certs, 0, cache, now)
    }
}

fn resolved_next(text: String, cache: &MicrodescCache, now: Timestamp) -> (r: Result<
    (SyncStage, SyncAction),
    SyncError,
>)
    requires
        now.wf(),
    ensures
        outcome(r, cache@) == resolved_step(text@, cache@, now),
{
    let consensus = match parse_consensus(text.as_str()) {
        Ok(c) => c,
        Err(e) => {
            return Err(SyncError::Parse(e));
        },
    };
    match check_valid_at(consensus.start, consensus.end, now) {
        Timeliness::Timely => {},
        t => {
            return Err(SyncError::NotTimely(t));
        },
    }
    if !(is_printable(consensus.valid_after) && is_printable(consensus.fresh_until)
        && is_printable(consensus.valid_until)) {
        return Err(SyncError::Unprintable);
    }
    let action = SyncAction::Fetch { path: "/tor/keys/all".to_string(), diff_from: None };
    Ok((SyncStage::AwaitCerts { text, consensus }, action))
}

fn consensus_next(
    body: &Vec<u8>,
    held: &ConsensusCache,
    cache: &MicrodescCache,
    now: Timestamp,
) -> (r: Result<(SyncStage, SyncAction), SyncError>)
    requires
        now.wf(),
    ensures
        outcome(r, cache@) == consensus_step(body@, held@, cache@, now),
{
    let response = match utf8_text(body.as_slice()) {
        Some(t) => t.to_string(),
        None => {
            return Err(SyncError::NotText("consensus response is not valid UTF-8".to_string()));
        },
    };
    match held.resolve_response(response) {
        Ok(text) => resolved_next(text, cache, now),
        Err(ResolveError::NoConsensus) => Err(SyncError::NoConsensus),
        Err(ResolveError::Diff(e)) => Err(SyncError::Diff(e)),
    }
}

fn certs_next(
    text: String,
    consensus: Consensus,
    body: &Vec<u8>,
    cache: &mut MicrodescCache,
    now: Timestamp,
) -> (r: Result<(SyncStage, SyncAction), SyncError>)
    requires
        old(cache).wf(),
    ensures
        outcome(r, final(cache)@) == certs_step(text@, consensus@, body@, old(cache)@, now),
        final(cache).wf(),
{
    let certs = match utf8_text(body.as_slice()) {
        Some(t) => t.to_string(),
        None => {
            return Err(SyncError::NotText("authority certs are not valid UTF-8".to_string()));
        },
    };
    cache.retain(&consensus.digests);
    let missing = cache.missing(&consensus.digests);
    let paths = microdesc_paths(&missing);
    batch_next(text, consensus, certs, paths, 0, cache, now)
}

/// The action that begins a sync: the consensus is requested, as a diff against the one that is
/// held where there is one.
pub open spec fn first_action(held: Option<Seq<char>>) -> ActionView {
    ActionView::Fetch {
        path: "/tor/status-vote/current/consensus-microdesc"@,
        diff_from: digest_held(held),
    }
}

/// Begins a sync: fetch the consensus, as a diff against the last one where that is held.
pub fn begin_sync(consensus_cache: &ConsensusCache) -> (r: (SyncStage, SyncAction))
    ensures
        r.0@ == StageView::AwaitConsensus,
        r.1@ == first_action(consensus_cache@),
{
    let path = "/tor/status-vote/current/consensus-microdesc".to_string();
    let diff_from = consensus_cache.diff_hex();
    (SyncStage::AwaitConsensus, SyncAction::Fetch { path, diff_from })
}

/// The consensus that is held after a step: the new one once the sync is done, and the last one
/// until then.
pub open spec fn held_after(
    stage: StageView,
    step: StepView,
    before: Option<Seq<char>>,
) -> Option<Seq<char>> {
    match (stage, step) {
        (
            StageView::AwaitWrite { text, .. },
            StepView::Go(_, ActionView::Finish { .. }, _),
        ) => Some(text),
        _ => before,
    }
}

/// Fetch consensus, parse it, fetch missing microdescs, write everything to disk: takes what came
/// of the last action and gives the next one.
///
/// If `consensus_cache` holds a previous consensus, a diff is requested via
/// `X-Or-Diff-From-Consensus`. The cache is updated with the new consensus on success.
pub fn sync_once(
    stage: SyncStage,
    event: SyncEvent,
    consensus_cache: &mut ConsensusCache,
    cache: &mut MicrodescCache,
    now: Timestamp,
) -> (r: Result<(SyncStage, SyncAction), SyncError>)
    requires
        old(cache).wf(),
        now.wf(),
    ensures
        outcome(r, final(cache)@) == sync_step(
            stage@,
            event@,
            old(consensus_cache)@,
            old(cache)@,
            now,
        ),
        final(consensus_cache)@ == held_after(
            stage@,
            sync_step(stage@, event@, old(consensus_cache)@, old(cache)@, now),
            old(consensus_cache)@,
        ),
        final(cache).wf(),
{
    match (stage, event) {
        (SyncStage::AwaitConsensus, SyncEvent::Fetched(body)) => consensus_next(
            &body,
            consensus_cache,
            cache,
            now,
        ),
        (SyncStage::AwaitConsensus, SyncEvent::FetchFailed) => Err(SyncError::Fetch),
        (SyncStage::AwaitCerts { text, consensus }, SyncEvent::Fetched(body)) => certs_next(
            text,
            consensus,
            &body,
            cache,
            now,
        ),
        (SyncStage::AwaitCerts { .. }, SyncEvent::FetchFailed) => Err(SyncError::Fetch),
        (
            SyncStage::AwaitBatch { text, consensus, certs, paths, next },
            SyncEvent::Fetched(body),
        ) => {
            match utf8_text(body.as_slice()) {
                Some(t) => {
                    cache.ingest(t);
                },
                None => {
                    return Err(
                        SyncError::NotText("microdesc response is not valid UTF-8".to_string()),
                    );
                },
            }
            if next < paths.len() {
                batch_next(text, consensus, certs, paths, next + 1, cache, now)
            } else {
                write_next(text, consensus, certs, 0, cache, now)
            }
        },
        (
            SyncStage::AwaitBatch { text, consensus, certs, paths, next },
            SyncEvent::FetchFailed,
        ) => {
            if next < paths.len() {
                batch_next(text, consensus, certs, paths, next + 1, cache, now)
            } else {
                write_next(text, consensus, certs, 0, cache, now)
            }
        },
        (SyncStage::AwaitWrite { text, consensus, certs, file }, SyncEvent::Written) => {
            let next: usize = if file < 4 {
                file + 1
            } else {
                4
            };
            if next == 4 {
                consensus_cache.update(text.clone());
            }
            write_next(text, consensus, certs, next, cache, now)
        },
        (SyncStage::AwaitWrite { .. }, SyncEvent::WriteFailed) => Err(SyncError::Write),
        _ => Err(SyncError::OutOfOrder),
    }
}

/// Whether a consensus may be used at some time and has times that can be written.
pub open spec fn usable(text: Seq<char>, c: ConsensusView) -> bool {
    &&& consensus_of(text) == Some(c)
    &&& printable_times(c)
    &&& exists|t: Timestamp| #[trigger] timeliness(c.start, c.end, t) == Timeliness::Timely
}

/// Whether a stage goes on only from a consensus that may be used.
pub open spec fn sound(stage: StageView) -> bool {
    match stage {
        StageView::AwaitConsensus | StageView::Finished => true,
        StageView::AwaitCerts { text, consensus } => usable(text, consensus),
        StageView::AwaitBatch { text, consensus, paths, next, .. } => usable(text, consensus) && 0
            <= next < paths.len(),
        StageView::AwaitWrite { text, consensus, file, .. } => usable(text, consensus) && 0 <= file
            < 4,
    }
}

/// The files of a sync, in the order in which they are written.
pub open spec fn file_names() -> Seq<Seq<char>> {
    seq!["consensus-microdesc"@, "authority-certs"@, "microdescs"@, "metadata.json"@]
}

/// How many files the caller was told to write up to this stage.
pub open spec fn files_at(stage: StageView) -> int {
    match stage {
        StageView::AwaitWrite { file, .. } => file + 1,
        StageView::Finished => 4,
        _ => 0,
    }
}

/// A step from a stage that is sound leads to one that is. What is written is the next file, and
/// only from a consensus that was parsed and was valid when it came.
pub proof fn law_sync_step_is_sound(
    stage: StageView,
    event: EventView,
    held: Option<Seq<char>>,
    cache: CacheView,
    now: Timestamp,
)
    requires
        sound(stage),
    ensures
        sync_step(stage, event, held, cache, now) matches StepView::Go(next, action, _) ==> {
            &&& sound(next)
            &&& match action {
                ActionView::Write { name, data } => {
                    &&& files_at(next) == files_at(stage) + 1
                    &&& name == file_names()[files_at(stage)]
                    &&& next matches StageView::AwaitWrite { text, consensus, .. } && usable(
                        text,
                        consensus,
                    ) && (files_at(stage) == 0 ==> data == encode_utf8(text))
                },
                _ => files_at(next) == files_at(stage),
            }
            &&& action is Finish <==> next is Finished
        },
{
    if let (StageView::AwaitConsensus, EventView::Fetched(body)) = (stage, event) {
        if let Some(text) = resolved_text(held, decode_utf8(body)) {
            if let Some(c) = consensus_of(text) {
                if timeliness(c.start, c.end, now) == Timeliness::Timely && printable_times(c) {
                    assert(usable(text, c));
                }
            }
        }
    }
}

/// What a run of steps comes to: the stage, the microdescriptors, the consensus that is held, and
/// the actions so far; `None` where a step failed.
pub open spec fn run(
    stage: StageView,
    cache: CacheView,
    held: Option<Seq<char>>,
    inputs: Seq<(EventView, Timestamp)>,
) -> Option<(StageView, CacheView, Option<Seq<char>>, Seq<ActionView>)>
    decreases inputs.len(),
{
    if inputs.len() == 0 {
        Some((stage, cache, held, seq![]))
    } else {
        match run(stage, cache, held, inputs.drop_last()) {
            None => None,
            Some((s, c, h, actions)) => {
                let step = sync_step(s, inputs.last().0, h, c, inputs.last().1);
                match step {
                    StepView::Go(next, action, after) => Some(
                        (next, after, held_after(s, step, h), actions.push(action)),
                    ),
                    StepView::Fail(_, _) => None,
                }
            },
        }
    }
}

/// The names of the files that the actions write, in order.
pub open spec fn names_written(actions: Seq<ActionView>) -> Seq<Seq<char>>
    decreases actions.len(),
{
    if actions.len() == 0 {
        seq![]
    } else {
        let before = names_written(actions.drop_last());
        match actions.last() {
            ActionView::Write { name, .. } => before.push(name),
            _ => before,
        }
    }
}

/// However a sync goes, it writes its files in their order, each once; it is finished exactly
/// when all four were written; and until it has a consensus that may be used it writes nothing.
pub proof fn law_sync_writes_in_order(
    cache: CacheView,
    held: Option<Seq<char>>,
    inputs: Seq<(EventView, Timestamp)>,
)
    ensures
        run(StageView::AwaitConsensus, cache, held, inputs) matches Some((stage, _, _, actions))
            ==> {
            &&& sound(stage)
            &&& 0 <= files_at(stage) <= 4
            &&& names_written(actions) == file_names().take(files_at(stage))
            &&& stage is Finished ==> names_written(actions) == file_names()
        },
    decreases inputs.len(),
{
    if inputs.len() == 0 {
        assert(file_names().take(0) =~= seq![]);
    } else {
        law_sync_writes_in_order(cache, held, inputs.drop_last());
        if let Some((s, c, h, actions)) = run(
            StageView::AwaitConsensus,
            cache,
            held,
            inputs.drop_last(),
        ) {
            let (event, now) = inputs.last();
            law_sync_step_is_sound(s, event, h, c, now);
            if let StepView::Go(next, action, _) = sync_step(s, event, h, c, now) {
                assert(actions.push(action).drop_last() =~= actions);
                let n = files_at(s);
                if action is Write {
                    assert(file_names().take(n + 1) =~= file_names().take(n).push(file_names()[n]));
                }
            }
        }
    }
    assert(file_names().take(4) =~= file_names());
}

/// A sync that succeeds leaves the new consensus held, which may be used, and the next sync asks
/// for a diff against it, by the digest of its signed part; one that has not succeeded leaves what
/// was held. No request but the first asks for a diff.
pub proof fn law_next_sync_asks_for_diff(
    cache: CacheView,
    held: Option<Seq<char>>,
    inputs: Seq<(EventView, Timestamp)>,
)
    ensures
        run(StageView::AwaitConsensus, cache, held, inputs) matches Some(
            (stage, _, after, actions),
        ) ==> {
            &&& if stage is Finished {
                after matches Some(text) && usable(text, consensus_of(text).unwrap())
                    && diff_digest(text) is Some && first_action(after) == (ActionView::Fetch {
                    path: "/tor/status-vote/current/consensus-microdesc"@,
                    diff_from: diff_digest(text),
                })
            } else {
                after == held
            }
            &&& forall|i: int|
                0 <= i < actions.len() ==> ((#[trigger] actions[i]) matches ActionView::Fetch {
                    diff_from,
                    ..
                } ==> diff_from is None)
        },
    decreases inputs.len(),
{
    if inputs.len() > 0 {
        let head = inputs.drop_last();
        law_next_sync_asks_for_diff(cache, held, head);
        law_sync_writes_in_order(cache, held, head);
    }
}

/// The text of the consensus that a stage goes on from, if it has one.
pub open spec fn text_at(stage: StageView) -> Option<Seq<char>> {
    match stage {
        StageView::AwaitCerts { text, .. } => Some(text),
        StageView::AwaitBatch { text, .. } => Some(text),
        StageView::AwaitWrite { text, .. } => Some(text),
        _ => None,
    }
}

/// A sync goes on from the consensus that its first response gives, a diff applied to what was
/// held before it: that is what it writes to the file of the consensus, and what is held once it
/// has succeeded.
pub proof fn law_sync_keeps_what_was_resolved(
    cache: CacheView,
    held: Option<Seq<char>>,
    inputs: Seq<(EventView, Timestamp)>,
)
    requires
        inputs.len() > 0,
    ensures
        run(StageView::AwaitConsensus, cache, held, inputs) matches Some(
            (stage, _, after, actions),
        ) ==> {
            &&& inputs[0].0 matches EventView::Fetched(body)
            &&& valid_utf8(body)
            &&& resolved_text(held, decode_utf8(body)) matches Some(text)
            &&& stage is Finished ==> after == Some(text)
            &&& !(stage is Finished) ==> text_at(stage) == Some(text)
            &&& forall|i: int|
                0 <= i < actions.len() ==> ((#[trigger] actions[i]) matches ActionView::Write {
                    name,
                    data,
                } ==> name == "consensus-microdesc"@ ==> data == encode_utf8(text))
        },
    decreases inputs.len(),
{
    let head = inputs.drop_last();
    reveal_strlit("consensus-microdesc");
    reveal_strlit("authority-certs");
    reveal_strlit("microdescs");
    reveal_strlit("metadata.json");
    assert("consensus-microdesc"@[0] != "authority-certs"@[0]);
    assert("consensus-microdesc"@[0] != "microdescs"@[0]);
    assert("consensus-microdesc"@[0] != "metadata.json"@[0]);
    law_next_sync_asks_for_diff(cache, held, head);
    law_sync_writes_in_order(cache, held, head);
    if head.len() == 0 {
        assert(inputs.last() == inputs[0]);
        assert(run(StageView::AwaitConsensus, cache, held, head) == Some(
            (StageView::AwaitConsensus, cache, held, Seq::<ActionView>::empty()),
        ));
    } else {
        law_sync_keeps_what_was_resolved(cache, held, head);
        assert(head[0] == inputs[0]);
    }
}

/// The relays that a sync has permitted at its end are those of the consensus that is held then.
pub proof fn law_permitted_are_the_consensus_relays(
    stage: StageView,
    event: EventView,
    cache: CacheView,
    held: Option<Seq<char>>,
    now: Timestamp,
)
    requires
        sound(stage),
    ensures
        sync_step(stage, event, held, cache, now) matches StepView::Go(
            _,
            ActionView::Finish { relay_addrs, .. },
            _,
        ) ==> held_after(stage, sync_step(stage, event, held, cache, now), held) matches Some(h)
            && relay_addrs == relay_addresses(h).flatten(),
{
}

/// A request for microdescriptors that fails does not fail the sync, and loses nothing that is
/// cached.
pub proof fn law_failed_batch_is_passed_over(
    stage: StageView,
    held: Option<Seq<char>>,
    cache: CacheView,
    now: Timestamp,
)
    requires
        stage is AwaitBatch,
    ensures
        sync_step(stage, EventView::FetchFailed, held, cache, now) matches StepView::Go(_, _, after)
            && after == cache,
{
}

/// Once the certificates have come, whatever is still cached is in the consensus.
pub proof fn law_sync_forgets_unlisted(
    text: Seq<char>,
    c: ConsensusView,
    body: Seq<u8>,
    held: Option<Seq<char>>,
    cache: CacheView,
    now: Timestamp,
)
    requires
        valid_utf8(body),
    ensures
        sync_step(
            StageView::AwaitCerts { text, consensus: c },
            EventView::Fetched(body),
            held,
            cache,
            now,
        ) matches StepView::Go(_, _, kept) && forall|e: (Seq<u8>, Seq<char>)| #[trigger]
            kept.contains(e) <==> cache.contains(e) && c.digests.contains(e.0),
{
    let kept = cache.filter(listed_in(c.digests));
    assert forall|e: (Seq<u8>, Seq<char>)| #[trigger] kept.contains(e) <==> cache.contains(e)
        && c.digests.contains(e.0) by {
        law_retain(cache, c.digests, e);
    }
}

proof fn lemma_encode_concat(a: Seq<char>, b: Seq<char>)
    ensures
        encode_utf8(a + b) == encode_utf8(a) + encode_utf8(b),
    decreases a.len(),
{
    if a.len() == 0 {
        assert(a + b =~= b);
        assert(encode_utf8(a) + encode_utf8(b) =~= encode_utf8(b));
    } else {
        lemma_encode_concat(a.drop_first(), b);
        assert((a + b).drop_first() =~= a.drop_first() + b);
        assert(encode_utf8(a + b) =~= encode_utf8(a) + encode_utf8(b));
    }
}

/// An atomic write never has one file for both of its purposes.
pub proof fn law_atomic_files_differ(dir: Seq<u8>, name: Seq<char>)
    ensures
        atomic_files(dir, name).0 != atomic_files(dir, name).1,
{
    reveal_strlit(".tmp");
    let suffix = encode_utf8(".tmp"@);
    let b = encode_utf8(name);
    let a = encode_utf8(name + ".tmp"@);
    lemma_encode_concat(name, ".tmp"@);
    assert(vstd::utf8::is_ascii_chars(".tmp"@));
    vstd::utf8::is_ascii_chars_encode_utf8(".tmp"@);
    assert(suffix[0] == ".tmp"@[0] as u8);
    if b.len() > 0 {
        assert(a[0] == b[0]);
    } else {
        assert(a[0] == suffix[0]);
    }
    assert(atomic_files(dir, name).0.len() > atomic_files(dir, name).1.len());
}

/// A document may be used strictly after its first bound and strictly before its last one, where
/// it has them; where it may not, it is told by how much it is too early or too late.
pub proof fn law_timeliness(start: Option<Timestamp>, end: Option<Timestamp>, now: Timestamp)
    ensures
        timeliness(start, end, now) is Timely <==> (start matches Some(s) ==> s.nanos < now.nanos)
            && (end matches Some(e) ==> now.nanos < e.nanos),
        timeliness(start, end, now) matches Timeliness::NotYet(span) ==> (start matches Some(s)
            && now.nanos + span.nanos == s.nanos),
        timeliness(start, end, now) matches Timeliness::Expired(span) ==> (end matches Some(e)
            && e.nanos + span.nanos == now.nanos) && (start matches Some(s) ==> s.nanos
            < now.nanos),
{
}

/// Half of an interval, twice, is the interval, but for an odd nanosecond; and a delay leads to the
/// time that was chosen, or to now where that is past.
pub proof fn law_times_of_sync(fresh_until: Timestamp, valid_until: Timestamp, offset: int, now: Timestamp)
    ensures
        fresh_until.nanos <= valid_until.nanos ==> {
            let whole = valid_until.nanos - fresh_until.nanos;
            2 * half_interval(fresh_until, valid_until) <= whole <= 2 * half_interval(
                fresh_until,
                valid_until,
            ) + 1
        },
        fresh_until.nanos > valid_until.nanos ==> half_interval(fresh_until, valid_until)
            == 900_000_000_000,
        fresh_until.nanos + offset >= now.nanos ==> now.nanos + delay_until(
            fresh_until,
            offset,
            now,
        ) == fresh_until.nanos + offset,
        fresh_until.nanos + offset < now.nanos ==> delay_until(fresh_until, offset, now) == 0,
{
}

/// Every missing microdescriptor is asked for, however many there are: 500 by a request, in their
/// order, each by its digest in base64, between hyphens.
pub proof fn law_every_missing_is_asked_for(missing: Seq<Seq<u8>>, j: int)
    requires
        0 <= j < missing.len(),
    ensures
        ({
            let paths = batch_paths(missing);
            &&& 0 <= j / 500 < paths.len()
            &&& (paths.len() - 1) * 500 < missing.len() <= paths.len() * 500
            &&& exists|tail: Seq<char>|
                {
                    &&& paths[j / 500] == #[trigger] ("/tor/micro/d/"@ + tail)
                    &&& split_at_char(tail, '-').len() == (if (j / 500 + 1) * 500 <= missing.len() {
                        500
                    } else {
                        missing.len() % 500
                    })
                    &&& split_at_char(tail, '-')[j % 500] == base64_text(missing[j])
                }
        }),
        batch_paths(Seq::<Seq<u8>>::empty()).len() == 0,
{
    let paths = batch_paths(missing);
    let k = j / 500;
    let n = missing.len() as int;
    assert(batch_count(n) == (n + 499) / 500);
    assert(0 <= k < batch_count(n));
    let part = batch(missing, k);
    let e = encoded(part);
    assert(part.len() == (if (k + 1) * 500 <= n {
        500
    } else {
        n - 500 * k
    }));
    if (k + 1) * 500 > n {
        assert(n / 500 == k);
    }
    assert forall|i: int| 0 <= i < e.len() implies !(#[trigger] e[i]).contains('-') by {
        lemma_no_hyphen(part[i]);
    }
    law_split_undoes_join(e, '-');
    reveal_strlit("-");
    assert("-"@ =~= seq!['-']);
    let tail = join_text(e, seq!['-']);
    assert(paths[k] == "/tor/micro/d/"@ + tail);
    assert(part[j % 500] == missing[j]);
    assert(split_at_char(tail, '-')[j % 500] == base64_text(missing[j]));
}

/// The action that begins a sync asks for the consensus, and for a diff exactly where a consensus
/// is held, by the digest of its signed part.
pub proof fn law_first_request(text: Seq<char>)
    ensures
        first_action(None) == (ActionView::Fetch {
            path: "/tor/status-vote/current/consensus-microdesc"@,
            diff_from: None,
        }),
        first_action(Some(text)) == (ActionView::Fetch {
            path: "/tor/status-vote/current/consensus-microdesc"@,
            diff_from: diff_digest(text),
        }),
        diff_digest(text) is Some <==> consensus_of(text) is Some,
{
}

/// A file is written under its name with `.tmp` at the end, beside the one that it is renamed to.
pub proof fn law_atomic_files(dir: Seq<u8>, name: Seq<char>)
    ensures
        atomic_files(dir, name).0 == joined_text(dir, name + ".tmp"@),
        atomic_files(dir, name).1 == joined_text(dir, name),
{
}

/// The description of a sync has the times of the consensus and of the sync, and counts what there
/// is: the relays, the bytes of the certificates and of the microdescriptors, the microdescriptors
/// that are cached and those that are missing.
pub proof fn law_metadata(c: ConsensusView, certs: Seq<char>, cache: CacheView, now: Timestamp)
    ensures
        ({
            let m = metadata_members(c, certs, cache, now);
            let missing = c.digests.filter(|d: Seq<u8>| !cached_digests(cache).contains(d));
            &&& m.len() == 10
            &&& m.contains(("consensus_flavor"@, JsonFieldView::Text("microdesc"@)))
            &&& m.contains(("valid_after"@, JsonFieldView::Text(timestamp_text(c.valid_after))))
            &&& m.contains(("fresh_until"@, JsonFieldView::Text(timestamp_text(c.fresh_until))))
            &&& m.contains(("valid_until"@, JsonFieldView::Text(timestamp_text(c.valid_until))))
            &&& m.contains(("num_relays"@, JsonFieldView::Number(c.digests.len() as u64)))
            &&& m.contains(
                (
                    "authority_certs_bytes"@,
                    JsonFieldView::Number(encode_utf8(certs).len() as u64),
                ),
            )
            &&& m.contains(("num_microdescs_in_cache"@, JsonFieldView::Number(cache.len() as u64)))
            &&& m.contains(("num_microdescs_missing"@, JsonFieldView::Number(missing.len() as u64)))
            &&& m.contains(
                (
                    "microdescs_bytes"@,
                    JsonFieldView::Number(encode_utf8(concatenated(cache)).len() as u64),
                ),
            )
            &&& m.contains(("synced_at"@, JsonFieldView::Text(timestamp_text(now))))
        }),
{
    let m = metadata_members(c, certs, cache, now);
    let missing = c.digests.filter(|d: Seq<u8>| !cached_digests(cache).contains(d));
    lemma_filter_same(
        c.digests,
        not_cached(cache),
        |d: Seq<u8>| !cached_digests(cache).contains(d),
    );
    assert(m.contains(m[0]) && m.contains(m[1]) && m.contains(m[2]) && m.contains(m[3]));
    assert(m.contains(m[4]) && m.contains(m[5]) && m.contains(m[6]) && m.contains(m[7]));
    assert(m.contains(m[8]) && m.contains(m[9]));
}

proof fn lemma_filter_same<A>(s: Seq<A>, p: spec_fn(A) -> bool, q: spec_fn(A) -> bool)
    requires
        forall|i: int| 0 <= i < s.len() ==> p(#[trigger] s[i]) == q(s[i]),
    ensures
        s.filter(p) == s.filter(q),
    decreases s.len(),
{
    reveal(Seq::filter);
    if s.len() > 0 {
        let head = s.drop_last();
        assert forall|i: int| 0 <= i < head.len() implies p(#[trigger] head[i]) == q(head[i]) by {
            assert(head[i] == s[i]);
        }
        lemma_filter_same(head, p, q);
        assert(s[s.len() - 1] == s.last());
    }
}

/// A sync fails only for cause: where its consensus does not come, is no text, is a diff that
/// cannot be applied, is no consensus, or may not be used now; where the certificates do not come
/// or are no text; where a batch is no text; and where a file cannot be written or the description
/// cannot be made. In all else it goes on, whatever the documents say and however long they are.
pub proof fn law_sync_fails_for_cause(
    text: Seq<char>,
    c: ConsensusView,
    certs: Seq<char>,
    paths: Seq<Seq<char>>,
    next: int,
    file: int,
    body: Seq<u8>,
    held: Option<Seq<char>>,
    cache: CacheView,
    now: Timestamp,
)
    requires
        0 <= next < paths.len(),
        0 <= file < 4,
    ensures
        ({
            let step = |stage: StageView, event: EventView|
                sync_step(stage, event, held, cache, now);
            let fetched = EventView::Fetched(body);
            let first = step(StageView::AwaitConsensus, fetched);
            let certs_stage = StageView::AwaitCerts { text, consensus: c };
            let batch_stage = StageView::AwaitBatch { text, consensus: c, certs, paths, next };
            let write_stage = StageView::AwaitWrite { text, consensus: c, certs, file };
            let failed = EventView::FetchFailed;
            let times = |v: ConsensusView|
                printable(v.valid_after) && printable(v.fresh_until) && printable(v.valid_until);
            &&& first is Go <==> {
                &&& valid_utf8(body)
                &&& resolved_text(held, decode_utf8(body)) matches Some(t)
                &&& consensus_of(t) matches Some(v)
                &&& (v.start matches Some(s) ==> s.nanos < now.nanos)
                &&& (v.end matches Some(e) ==> now.nanos < e.nanos)
                &&& times(v)
            }
            &&& first matches StepView::Go(_, action, kept) ==> action == (ActionView::Fetch {
                path: "/tor/keys/all"@,
                diff_from: None,
            }) && kept == cache
            &&& !valid_utf8(body) ==> first == StepView::Fail(
                FailureView::NotText("consensus response is not valid UTF-8"@),
                cache,
            )
            &&& valid_utf8(body) && resolved_text(held, decode_utf8(body)) is None ==> first
                == StepView::Fail(
                if held is None {
                    FailureView::NoConsensus
                } else {
                    FailureView::Diff
                },
                cache,
            )
            &&& step(StageView::AwaitConsensus, failed) == StepView::Fail(FailureView::Fetch, cache)
            &&& step(certs_stage, failed) == StepView::Fail(FailureView::Fetch, cache)
            &&& step(certs_stage, fetched) is Go <==> valid_utf8(body)
            &&& !valid_utf8(body) ==> step(certs_stage, fetched) == StepView::Fail(
                FailureView::NotText("authority certs are not valid UTF-8"@),
                cache,
            )
            &&& step(batch_stage, failed) is Go
            &&& step(batch_stage, fetched) is Go <==> valid_utf8(body)
            &&& !valid_utf8(body) ==> step(batch_stage, fetched) == StepView::Fail(
                FailureView::NotText("microdesc response is not valid UTF-8"@),
                cache,
            )
            &&& step(write_stage, EventView::WriteFailed) == StepView::Fail(
                FailureView::Write,
                cache,
            )
            &&& step(write_stage, EventView::Written) is Go <==> (file == 2 ==> times(c)
                && printable(now) && json_pretty_text(metadata_members(c, certs, cache, now))
                is Some)
        }),
{
    if let Some(t) = resolved_text(held, decode_utf8(body)) {
        if let Some(v) = consensus_of(t) {
            law_timeliness(v.start, v.end, now);
        }
    }
}

/// The paths that the actions request, in order.
pub open spec fn paths_requested(actions: Seq<ActionView>) -> Seq<Seq<char>>
    decreases actions.len(),
{
    if actions.len() == 0 {
        seq![]
    } else {
        let before = paths_requested(actions.drop_last());
        match actions.last() {
            ActionView::Fetch { path, .. } => before.push(path),
            _ => before,
        }
    }
}

/// What is cached once the responses among these events were taken in, one after the other.
pub open spec fn taken_in(entries: CacheView, inputs: Seq<(EventView, Timestamp)>) -> CacheView
    decreases inputs.len(),
{
    if inputs.len() == 0 {
        entries
    } else {
        let before = taken_in(entries, inputs.drop_last());
        match inputs.last().0 {
            EventView::Fetched(body) => ingested(before, microdesc_entries(decode_utf8(body))),
            _ => before,
        }
    }
}

/// The digests of a consensus that are not cached.
pub open spec fn digests_missing(c: ConsensusView, cache: CacheView) -> Seq<Seq<u8>> {
    c.digests.filter(|d: Seq<u8>| !cached_digests(cache).contains(d))
}

/// What stays cached of what a consensus lists.
pub open spec fn still_listed(c: ConsensusView, cache: CacheView) -> CacheView {
    cache.filter(|e: (Seq<u8>, Seq<char>)| c.digests.contains(e.0))
}

/// Whether the file that an action writes, if any, is what it should be.
pub open spec fn file_is(
    action: ActionView,
    c: ConsensusView,
    certs: Seq<char>,
    cached: CacheView,
) -> bool {
    action matches ActionView::Write { name, data } ==> {
        &&& name == "authority-certs"@ ==> data == encode_utf8(certs)
        &&& name == "microdescs"@ ==> data == encode_utf8(concatenated(cached))
        &&& name == "metadata.json"@ ==> exists|t: Timestamp|
            json_pretty_text(#[trigger] metadata_members(c, certs, cached, t)) matches Some(json)
                && data == encode_utf8(json)
    }
}

/// The course of a sync from its consensus on.
spec fn on_course(
    c: ConsensusView,
    cache: CacheView,
    inputs: Seq<(EventView, Timestamp)>,
    stage: StageView,
    cached: CacheView,
    actions: Seq<ActionView>,
) -> bool {
    let asked = batch_paths(digests_missing(c, cache));
    let keys = seq!["/tor/keys/all"@];
    let came = |certs: Seq<char>|
        {
            &&& inputs.len() >= 2
            &&& inputs[1].0 matches EventView::Fetched(body)
            &&& valid_utf8(body)
            &&& certs == decode_utf8(body)
            &&& cached == taken_in(still_listed(c, cache), inputs.skip(2))
        };
    let none_written = forall|i: int|
        0 <= i < actions.len() ==> !((#[trigger] actions[i]) is Write);
    let in_order = forall|i: int, j: int|
        0 <= i < j < actions.len() && (#[trigger] actions[i]) is Write ==> !((
        #[trigger] actions[j]) is Fetch);
    match stage {
        StageView::AwaitConsensus => false,
        StageView::AwaitCerts { consensus, .. } => {
            &&& consensus == c
            &&& inputs.len() == 1
            &&& cached == cache
            &&& paths_requested(actions) == keys
            &&& none_written
        },
        StageView::AwaitBatch { consensus, certs, paths, next, .. } => {
            &&& consensus == c
            &&& came(certs)
            &&& paths == asked
            &&& 0 <= next < paths.len()
            &&& paths_requested(actions) == keys + asked.take(next + 1)
            &&& none_written
        },
        StageView::AwaitWrite { consensus, certs, file, .. } => {
            &&& consensus == c
            &&& came(certs)
            &&& 0 <= file < 4
            &&& paths_requested(actions) == keys + asked
            &&& in_order
            &&& forall|i: int|
                0 <= i < actions.len() ==> file_is(#[trigger] actions[i], c, certs, cached)
        },
        StageView::Finished => {
            &&& inputs.len() >= 2
            &&& inputs[1].0 matches EventView::Fetched(body)
            &&& came(decode_utf8(body))
            &&& paths_requested(actions) == keys + asked
            &&& in_order
            &&& forall|i: int|
                0 <= i < actions.len() ==> file_is(
                    #[trigger] actions[i],
                    c,
                    decode_utf8(body),
                    cached,
                )
            &&& actions.len() > 0
            &&& actions.last() == (ActionView::Finish {
                fresh_until: c.fresh_until,
                valid_until: c.valid_until,
                relay_addrs: c.relay_addrs,
            })
        },
    }
}

/// What the cache lacks of a consensus is what it lacks once it was cleared of the rest.
proof fn lemma_missing_of_kept(c: ConsensusView, cache: CacheView)
    ensures
        c.digests.filter(not_cached(cache.filter(listed_in(c.digests)))) == digests_missing(
            c,
            cache,
        ),
        cache.filter(listed_in(c.digests)) == still_listed(c, cache),
{
    let kept = cache.filter(listed_in(c.digests));
    let p = not_cached(kept);
    let q = |d: Seq<u8>| !cached_digests(cache).contains(d);
    assert forall|i: int| 0 <= i < c.digests.len() implies p(#[trigger] c.digests[i]) == q(
        c.digests[i],
    ) by {
        let d = c.digests[i];
        assert(c.digests.contains(d));
        if cached_digests(cache).contains(d) {
            let k = choose|k: int|
                0 <= k < cached_digests(cache).len() && cached_digests(cache)[k] == d;
            let e = cache[k];
            assert(cache.contains(e));
            law_retain(cache, c.digests, e);
            let m = choose|m: int| 0 <= m < kept.len() && kept[m] == e;
            assert(cached_digests(kept)[m] == d);
        }
        if cached_digests(kept).contains(d) {
            let k = choose|k: int|
                0 <= k < cached_digests(kept).len() && cached_digests(kept)[k] == d;
            let e = kept[k];
            assert(kept.contains(e));
            law_retain(cache, c.digests, e);
            let m = choose|m: int| 0 <= m < cache.len() && cache[m] == e;
            assert(cached_digests(cache)[m] == d);
        }
    }
    lemma_filter_same(c.digests, p, q);
    lemma_filter_same(
        cache,
        listed_in(c.digests),
        |e: (Seq<u8>, Seq<char>)| c.digests.contains(e.0),
    );
}

proof fn lemma_on_course(
    cache: CacheView,
    held: Option<Seq<char>>,
    inputs: Seq<(EventView, Timestamp)>,
    text: Seq<char>,
)
    requires
        inputs.len() > 0,
        inputs[0].0 matches EventView::Fetched(body) && resolved_text(held, decode_utf8(body))
            == Some(text),
    ensures
        run(StageView::AwaitConsensus, cache, held, inputs) matches Some(
            (stage, cached, _, actions),
        ) ==> consensus_of(text) matches Some(c) && on_course(
            c,
            cache,
            inputs,
            stage,
            cached,
            actions,
        ),
    decreases inputs.len(),
{
    let head = inputs.drop_last();
    let (event, now) = inputs.last();
    reveal_strlit("consensus-microdesc");
    reveal_strlit("authority-certs");
    reveal_strlit("microdescs");
    reveal_strlit("metadata.json");
    if head.len() == 0 {
        assert(inputs.last() == inputs[0]);
        assert(run(StageView::AwaitConsensus, cache, held, head) == Some(
            (StageView::AwaitConsensus, cache, held, Seq::<ActionView>::empty()),
        ));
        let none = Seq::<ActionView>::empty();
        let first = fetch("/tor/keys/all"@);
        assert(none.push(first).drop_last() =~= none);
        assert(paths_requested(none) =~= Seq::<Seq<char>>::empty());
        assert(paths_requested(none.push(first)) =~= seq!["/tor/keys/all"@]);
    } else {
        assert(head[0] == inputs[0]);
        lemma_on_course(cache, held, head, text);
        if let Some((s, cached, h, before)) = run(
            StageView::AwaitConsensus,
            cache,
            held,
            head,
        ) {
            let c = consensus_of(text).unwrap();
            let asked = batch_paths(digests_missing(c, cache));
            let keys = seq!["/tor/keys/all"@];
            lemma_missing_of_kept(c, cache);
            if let StepView::Go(stage, action, after) = sync_step(s, event, h, cached, now) {
                let actions = before.push(action);
                assert(actions.drop_last() =~= before);
                if head.len() >= 2 {
                    assert(inputs[1] == head[1]);
                    assert(inputs.skip(2).drop_last() =~= head.skip(2));
                    assert(inputs.skip(2).last() == inputs.last());
                } else {
                    assert(inputs[1] == inputs.last());
                    assert(inputs.skip(2) =~= Seq::<(EventView, Timestamp)>::empty());
                }
                assert(after == (match s {
                    StageView::AwaitCerts { .. } => still_listed(c, cache),
                    _ => taken_in(still_listed(c, cache), inputs.skip(2)),
                }));
                match s {
                    StageView::AwaitCerts { .. } => {
                        if asked.len() > 0 {
                            assert(asked.take(1) =~= seq![asked[0]]);
                            assert(keys.push(asked[0]) =~= keys + asked.take(1));
                        } else {
                            assert(keys + asked =~= keys);
                        }
                    },
                    StageView::AwaitBatch { next, .. } => {
                        if next + 1 < asked.len() {
                            assert((keys + asked.take(next + 1)).push(asked[next + 1]) =~= keys
                                + asked.take(next + 2));
                        } else {
                            assert(asked.take(next + 1) =~= asked);
                        }
                    },
                    StageView::AwaitWrite { certs, file, .. } => {
                        assert(after == cached);
                        assert(file_is(action, c, certs, after)) by {
                            assert("metadata.json"@[0] != "authority-certs"@[0]);
                            assert("metadata.json"@.len() != "microdescs"@.len());
                            assert("microdescs"@[0] != "authority-certs"@[0]);
                            assert(metadata_members(c, certs, after, now) == metadata_members(
                                c,
                                certs,
                                cached,
                                now,
                            ));
                        }
                    },
                    _ => {},
                }
                assert("consensus-microdesc"@[0] != "authority-certs"@[0]);
                assert("consensus-microdesc"@[0] != "microdescs"@[0]);
                assert("consensus-microdesc"@[0] != "metadata.json"@[0]);
                assert(on_course(c, cache, inputs, stage, after, actions));
            }
        }
    }
}

/// By the time that a sync writes its first file it has requested the certificates, and then every
/// batch of the microdescriptors that its consensus lists and that were not cached, each once and
/// in order; it requests nothing after that. Until then it has requested some of these, in the
/// same order, and written nothing.
pub proof fn law_every_batch_is_requested(
    cache: CacheView,
    held: Option<Seq<char>>,
    inputs: Seq<(EventView, Timestamp)>,
)
    requires
        inputs.len() > 0,
    ensures
        run(StageView::AwaitConsensus, cache, held, inputs) matches Some((stage, _, _, actions))
            ==> {
            &&& inputs[0].0 matches EventView::Fetched(body)
            &&& resolved_text(held, decode_utf8(body)) matches Some(text)
            &&& consensus_of(text) matches Some(c)
            &&& ({
                let missing = c.digests.filter(|d: Seq<u8>| !cached_digests(cache).contains(d));
                let wanted = seq!["/tor/keys/all"@] + batch_paths(missing);
                &&& paths_requested(actions).is_prefix_of(wanted)
                &&& (exists|i: int| 0 <= i < actions.len() && (#[trigger] actions[i]) is Write)
                    ==> paths_requested(actions) == wanted
                &&& stage is Finished ==> paths_requested(actions) == wanted
            })
            &&& forall|i: int, j: int|
                0 <= i < j < actions.len() && (#[trigger] actions[i]) is Write ==> !((
                #[trigger] actions[j]) is Fetch)
        },
{
    law_sync_keeps_what_was_resolved(cache, held, inputs);
    if let Some((stage, cached, _, actions)) = run(
        StageView::AwaitConsensus,
        cache,
        held,
        inputs,
    ) {
        let body = inputs[0].0->Fetched_0;
        let text = resolved_text(held, decode_utf8(body)).unwrap();
        lemma_on_course(cache, held, inputs, text);
        let c = consensus_of(text).unwrap();
        let keys = seq!["/tor/keys/all"@];
        let asked = batch_paths(digests_missing(c, cache));
        match stage {
            StageView::AwaitBatch { next, .. } => {
                assert((keys + asked.take(next + 1)).is_prefix_of(keys + asked));
            },
            StageView::AwaitCerts { .. } => {
                assert(keys.is_prefix_of(keys + asked));
            },
            _ => {},
        }
    }
}

/// A sync writes what came: the certificates byte for byte, and the texts of all microdescriptors
/// that are cached once every response was taken in, after those that the consensus does not list
/// were dropped. The description is of that consensus, those certificates and that cache. At the
/// end the sync gives the times and the relays of the consensus.
pub proof fn law_files_are_what_came(
    cache: CacheView,
    held: Option<Seq<char>>,
    inputs: Seq<(EventView, Timestamp)>,
    i: int,
)
    requires
        inputs.len() > 0,
    ensures
        run(StageView::AwaitConsensus, cache, held, inputs) matches Some(
            (stage, cached, _, actions),
        ) ==> {
            &&& inputs[0].0 matches EventView::Fetched(body)
            &&& resolved_text(held, decode_utf8(body)) matches Some(text)
            &&& consensus_of(text) matches Some(c)
            &&& inputs.len() >= 2 ==> cached == taken_in(
                cache.filter(|e: (Seq<u8>, Seq<char>)| c.digests.contains(e.0)),
                inputs.skip(2),
            )
            &&& 0 <= i < actions.len() && actions[i] is Write ==> {
                &&& inputs.len() >= 2
                &&& inputs[1].0 matches EventView::Fetched(certs)
                &&& actions[i] matches ActionView::Write { name, data }
                &&& name == "authority-certs"@ ==> data == certs
                &&& name == "microdescs"@ ==> data == encode_utf8(concatenated(cached))
                &&& name == "metadata.json"@ ==> exists|t: Timestamp|
                    json_pretty_text(
                        #[trigger] metadata_members(c, decode_utf8(certs), cached, t),
                    ) matches Some(json) && data == encode_utf8(json)
            }
            &&& stage is Finished ==> actions.last() == (ActionView::Finish {
                fresh_until: c.fresh_until,
                valid_until: c.valid_until,
                relay_addrs: c.relay_addrs,
            })
        },
{
    law_sync_keeps_what_was_resolved(cache, held, inputs);
    if let Some((stage, cached, _, actions)) = run(
        StageView::AwaitConsensus,
        cache,
        held,
        inputs,
    ) {
        let body = inputs[0].0->Fetched_0;
        let text = resolved_text(held, decode_utf8(body)).unwrap();
        lemma_on_course(cache, held, inputs, text);
        if inputs.len() >= 2 {
            if let EventView::Fetched(certs) = inputs[1].0 {
                if valid_utf8(certs) {
                    vstd::utf8::decode_utf8_encode_utf8(certs);
                }
            }
        }
        if 0 <= i < actions.len() && actions[i] is Write {
            let c = consensus_of(text).unwrap();
            match stage {
                StageView::AwaitWrite { certs, .. } => {
                    assert(file_is(actions[i], c, certs, cached));
                },
                StageView::Finished => {
                    let certs = decode_utf8(inputs[1].0->Fetched_0);
                    assert(file_is(actions[i], c, certs, cached));
                },
                _ => {},
            }
        }
    }
}

/// Responses are taken in one after the other, and nothing else changes what is cached.
pub proof fn law_taken_in(
    entries: CacheView,
    inputs: Seq<(EventView, Timestamp)>,
    body: Seq<u8>,
    now: Timestamp,
)
    ensures
        taken_in(entries, inputs.push((EventView::Fetched(body), now))) == ingested(
            taken_in(entries, inputs),
            microdesc_entries(decode_utf8(body)),
        ),
        taken_in(entries, inputs.push((EventView::FetchFailed, now))) == taken_in(entries, inputs),
        taken_in(entries, inputs.push((EventView::Written, now))) == taken_in(entries, inputs),
        taken_in(entries, Seq::<(EventView, Timestamp)>::empty()) == entries,
{
    assert(inputs.push((EventView::Fetched(body), now)).drop_last() =~= inputs);
    assert(inputs.push((EventView::FetchFailed, now)).drop_last() =~= inputs);
    assert(inputs.push((EventView::Written, now)).drop_last() =~= inputs);
}

/// Once a batch has come, and was taken in, or has failed to come, the next one is requested, until
/// there are no more; only then is the first file written.
pub proof fn law_batches_follow_each_other(
    text: Seq<char>,
    c: ConsensusView,
    certs: Seq<char>,
    paths: Seq<Seq<char>>,
    next: int,
    event: EventView,
    held: Option<Seq<char>>,
    cache: CacheView,
    now: Timestamp,
)
    requires
        0 <= next < paths.len(),
        event is FetchFailed || (event matches EventView::Fetched(body) && valid_utf8(body)),
    ensures
        ({
            let stage = StageView::AwaitBatch { text, consensus: c, certs, paths, next };
            &&& sync_step(stage, event, held, cache, now) matches StepView::Go(after, action, kept)
            &&& kept == (match event {
                EventView::Fetched(body) => ingested(cache, microdesc_entries(decode_utf8(body))),
                _ => cache,
            })
            &&& next + 1 < paths.len() ==> action == (ActionView::Fetch {
                path: paths[next + 1],
                diff_from: None,
            }) && after == (StageView::AwaitBatch {
                text,
                consensus: c,
                certs,
                paths,
                next: next + 1,
            })
            &&& next + 1 == paths.len() ==> action == (ActionView::Write {
                name: "consensus-microdesc"@,
                data: encode_utf8(text),
            }) && after == (StageView::AwaitWrite { text, consensus: c, certs, file: 0 })
        }),
{
}

/// Once the certificates have come the first batch of what is missing is requested, with the others
/// to follow; where nothing is missing the first file is written.
pub proof fn law_batches_begin(
    text: Seq<char>,
    c: ConsensusView,
    event: EventView,
    held: Option<Seq<char>>,
    cache: CacheView,
    now: Timestamp,
)
    requires
        event matches EventView::Fetched(body) ==> valid_utf8(body),
    ensures
        event matches EventView::Fetched(body) ==> {
            let stage = StageView::AwaitCerts { text, consensus: c };
            let missing = c.digests.filter(|d: Seq<u8>| !cached_digests(cache).contains(d));
            &&& sync_step(stage, event, held, cache, now) matches StepView::Go(after, action, _)
            &&& missing.len() > 0 ==> action == (ActionView::Fetch {
                path: batch_paths(missing)[0],
                diff_from: None,
            }) && after == (StageView::AwaitBatch {
                text,
                consensus: c,
                certs: decode_utf8(body),
                paths: batch_paths(missing),
                next: 0,
            })
            &&& missing.len() == 0 ==> action == (ActionView::Write {
                name: "consensus-microdesc"@,
                data: encode_utf8(text),
            })
        },
{
    lemma_missing_of_kept(c, cache);
    let missing = digests_missing(c, cache);
    assert(missing.len() > 0 ==> batch_paths(missing).len() > 0);
    assert(missing.len() == 0 ==> batch_paths(missing).len() == 0);
}

/// An event is out of order exactly where it is none that the stage waits for: a response where a
/// file is to be written, a file where a response is to come, and anything once the sync is done.
/// A step that fails changes nothing that is cached.
pub proof fn law_out_of_order(
    stage: StageView,
    event: EventView,
    held: Option<Seq<char>>,
    cache: CacheView,
    now: Timestamp,
)
    ensures
        sync_step(stage, event, held, cache, now) == StepView::Fail(FailureView::OutOfOrder, cache)
            <==> stage is Finished || (stage is AwaitWrite) != (event is Written
            || event is WriteFailed),
        sound(stage) ==> (sync_step(stage, event, held, cache, now) matches StepView::Fail(_, after)
            ==> after == cache),
{
}

/// Once a file is written the next one is: after the consensus the certificates, then the
/// microdescriptors that are cached, then the description. After that the sync is done, and gives
/// the times and the relays of the consensus. Nothing that is cached changes.
pub proof fn law_files_follow_each_other(
    text: Seq<char>,
    c: ConsensusView,
    certs: Seq<char>,
    file: int,
    held: Option<Seq<char>>,
    cache: CacheView,
    now: Timestamp,
)
    requires
        0 <= file < 4,
    ensures
        ({
            let stage = StageView::AwaitWrite { text, consensus: c, certs, file };
            sync_step(stage, EventView::Written, held, cache, now) matches StepView::Go(
                after,
                action,
                kept,
            ) ==> {
                &&& kept == cache
                &&& file < 3 ==> after == (StageView::AwaitWrite {
                    text,
                    consensus: c,
                    certs,
                    file: file + 1,
                })
                &&& file == 0 ==> action == (ActionView::Write {
                    name: "authority-certs"@,
                    data: encode_utf8(certs),
                })
                &&& file == 1 ==> action == (ActionView::Write {
                    name: "microdescs"@,
                    data: encode_utf8(concatenated(cache)),
                })
                &&& file == 2 ==> {
                    &&& json_pretty_text(metadata_members(c, certs, cache, now)) matches Some(json)
                    &&& action == (ActionView::Write {
                        name: "metadata.json"@,
                        data: encode_utf8(json),
                    })
                }
                &&& file == 3 ==> after is Finished && action == (ActionView::Finish {
                    fresh_until: c.fresh_until,
                    valid_until: c.valid_until,
                    relay_addrs: c.relay_addrs,
                })
            }
        }),
{
}

/// What events and actions say is what they hold, whole.
pub proof fn law_sync_views(event: SyncEvent, action: SyncAction, digests: Seq<Digest>, i: int)
    ensures
        match event {
            SyncEvent::Fetched(body) => event@ == EventView::Fetched(body@),
            SyncEvent::FetchFailed => event@ is FetchFailed,
            SyncEvent::Written => event@ is Written,
            SyncEvent::WriteFailed => event@ is WriteFailed,
        },
        match action {
            SyncAction::Fetch { path, diff_from } => action@ matches ActionView::Fetch {
                path: p,
                diff_from: d,
            } && p == path@ && match (diff_from, d) {
                (Some(a), Some(b)) => a@ == b,
                (None, None) => true,
                _ => false,
            },
            SyncAction::Write { name, data } => action@ == (ActionView::Write {
                name: name@,
                data: data@,
            }),
            SyncAction::Finish { fresh_until, valid_until, relay_addrs } => action@
                == (ActionView::Finish {
                fresh_until,
                valid_until,
                relay_addrs: string_views(relay_addrs@),
            }),
        },
        digest_views(digests).len() == digests.len(),
        0 <= i < digests.len() ==> digest_views(digests)[i] == digests[i]@,
{
}

} // verus!
