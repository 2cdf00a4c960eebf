//! Syncs, from a consensus to the files on disk.

use tor_js_gateway::cache::{ConsensusCache, Digest, MicrodescCache, ResolveError};
use tor_js_gateway::consensus::{hex, parse_consensus, Consensus};
use tor_js_gateway::path::FilePath;
use tor_js_gateway::sync::{
    atomic_write, begin_sync, check_valid_at, half_of_interval, metadata, microdesc_paths,
    relay_sync_delay, relay_sync_delay_at, sync_delay, sync_once, SyncAction, SyncError, SyncEvent,
    SyncStage, Timeliness,
};
use tor_js_gateway::time::{Duration, Timestamp};

const MD_1: &str = "onion-key\nntor-onion-key AQEBAQEBAQEBAQEBAQEBAQEBAQEBAQEBAQEBAQEBAQE\nid ed25519 ERERERERERERERERERERERERERERERERERERERERERE\n";
const MD_2: &str = "onion-key\nntor-onion-key AgICAgICAgICAgICAgICAgICAgICAgICAgICAgICAgI\nid ed25519 EhISEhISEhISEhISEhISEhISEhISEhISEhISEhISEhI\n";
const MD_3: &str = "onion-key\nntor-onion-key AwMDAwMDAwMDAwMDAwMDAwMDAwMDAwMDAwMDAwMDAwM\nid ed25519 ExMTExMTExMTExMTExMTExMTExMTExMTExMTExMTExM\n";

const DIGEST_1: Digest = [
    2, 235, 174, 108, 66, 103, 66, 151, 113, 98, 121, 71, 30, 52, 215, 83, 201, 37, 108, 179, 149,
    253, 91, 195, 179, 196, 180, 38, 105, 117, 13, 143,
];
const DIGEST_2: Digest = [
    22, 251, 141, 49, 109, 220, 73, 119, 199, 7, 21, 96, 237, 231, 14, 193, 220, 155, 25, 64, 85,
    254, 40, 41, 87, 89, 31, 175, 70, 119, 72, 216,
];

const CONSENSUS: &str = "network-status-version 3 microdesc
vote-status consensus
consensus-method 28
valid-after 2026-07-15 10:00:00
fresh-until 2026-07-15 11:00:00
valid-until 2026-07-15 13:00:00
voting-delay 300 300
client-versions 
server-versions 
known-flags Authority Exit Fast Guard HSDir Running Stable V2Dir Valid
recommended-client-protocols Cons=1-2 Desc=1-2 DirCache=1 HSDir=1 HSIntro=3 HSRend=1 Link=4 Microdesc=1-2 Relay=2
recommended-relay-protocols Cons=1-2 Desc=1-2 DirCache=1 HSDir=1 HSIntro=3 HSRend=1 Link=4 Microdesc=1-2 Relay=2
required-client-protocols Cons=1-2 Desc=1-2 DirCache=1 HSDir=1 HSIntro=3 HSRend=1 Link=4 Microdesc=1-2 Relay=2
required-relay-protocols Cons=1 Desc=1 DirCache=1 HSDir=1 HSIntro=3 HSRend=1 Link=3-4 Microdesc=1 Relay=1-2
dir-source alpha 0102030405060708090A0B0C0D0E0F1011121314 192.0.2.1 192.0.2.1 80 443
contact operator of alpha
vote-digest 1415161718191A1B1C1D1E1F2021222324252627
r one AAECAwQFBgcICQoLDA0ODxAREhM 2026-07-15 09:00:00 192.0.2.10 9001 0
a [2001:db8::10]:9001
m AuuubEJnQpdxYnlHHjTXU8klbLOV/VvDs8S0Jml1DY8
s Exit Fast Running Stable Valid
v Tor 0.4.8.1
pr Cons=1-2 Desc=1-2 DirCache=1-2 HSDir=1-2 HSIntro=3-4 HSRend=1-2 Link=1-5 LinkAuth=1,3 Microdesc=1-2 Relay=1-2
w Bandwidth=10
r two AQIDBAUGBwgJCgsMDQ4PEBESExQ 2026-07-15 09:00:00 192.0.2.20 9001 0
m FvuNMW3cSXfHBxVg7ecOwdybGUBV/igpV1kfr0Z3SNg
s Fast Guard Running Stable Valid
v Tor 0.4.8.1
pr Cons=1-2 Desc=1-2 DirCache=1-2 HSDir=1-2 HSIntro=3-4 HSRend=1-2 Link=1-5 LinkAuth=1,3 Microdesc=1-2 Relay=1-2
w Bandwidth=20
directory-footer
bandwidth-weights Wbd=3333 Wbe=0 Wbg=0 Wbm=10000 Wdb=10000 Web=10000 Wed=3333 Wee=10000 Weg=3333 Wem=10000 Wgb=10000 Wgd=3333 Wgg=10000 Wgm=10000 Wmb=10000 Wmd=3333 Wme=0 Wmg=0 Wmm=10000
directory-signature sha256 0102030405060708090A0B0C0D0E0F1011121314 28292A2B2C2D2E2F303132333435363738393A3B
-----BEGIN SIGNATURE-----
BwcHBwcHBwcHBwcHBwcHBwcHBwcHBwcHBwcHBwcHBwcHBwcHBwcHBwcHBwcHBwcH
BwcHBwcHBwcHBwcHBwcHBwcHBwcHBwcHBwcHBwcHBwcHBwcHBwcHBwcHBwcHBwcH
BwcHBwcHBwcHBwcHBwcHBwcHBwcHBwcHBwcHBwcHBwc=
-----END SIGNATURE-----
";

/// The digest of the signed part of the consensus.
const CONSENSUS_HEX: &str = "39A60F419D46FB49A7DBE75251830EFCE7C9C80DF4E0E1E0AD176CCDFF3EEF8A";

/// A diff that replaces the third line of the consensus.
const DIFF: &str = "network-status-diff-version 1
hash 39A60F419D46FB49A7DBE75251830EFCE7C9C80DF4E0E1E0AD176CCDFF3EEF8A 3991BD9F705CAD8DB145CFB5187AF72CD32F809DF156EB064B17CA9A2CEF40F8
3c
consensus-method 29
.
";

/// The digest of the signed part of what the diff gives.
const CHANGED_HEX: &str = "461D5372787FAAD780B3D782AD2034E56E185678B6D60FB172A58AEA345BDF7E";

fn changed() -> String {
    CONSENSUS.replace("consensus-method 28", "consensus-method 29")
}

/// 2026-07-15 10:00:00.
const START_SECS: i128 = 1_784_109_600;

fn at(secs: i128) -> Timestamp {
    Timestamp { nanos: (START_SECS + secs) * 1_000_000_000 }
}

fn bytes(text: &str) -> Vec<u8> {
    text.as_bytes().to_vec()
}

/// The event that the consensus has come.
fn consensus_came() -> SyncEvent {
    SyncEvent::Fetched(bytes(CONSENSUS))
}

/// One step of a sync that began without a consensus.
fn step(
    stage: SyncStage,
    event: SyncEvent,
    cache: &mut MicrodescCache,
    now: Timestamp,
) -> Result<(SyncStage, SyncAction), SyncError> {
    sync_once(stage, event, &mut ConsensusCache::new(), cache, now)
}

fn ok(step: Result<(SyncStage, SyncAction), SyncError>) -> (SyncStage, SyncAction) {
    match step {
        Ok(next) => next,
        Err(_) => panic!("the step failed"),
    }
}

fn path_of(action: &SyncAction) -> &str {
    match action {
        SyncAction::Fetch { path, diff_from } => {
            assert!(diff_from.is_none());
            path
        }
        _ => panic!("not a request"),
    }
}

fn file_of(action: &SyncAction) -> (&str, &[u8]) {
    match action {
        SyncAction::Write { name, data } => (name, data),
        _ => panic!("not a file to write"),
    }
}

/// Runs a sync up to the request for the certificates.
fn until_certs(cache: &mut MicrodescCache) -> SyncStage {
    let (stage, action) = begin_sync(&ConsensusCache::new());
    assert_eq!(path_of(&action), "/tor/status-vote/current/consensus-microdesc");
    let (stage, action) = ok(step(stage, consensus_came(), cache, at(60)));
    assert_eq!(path_of(&action), "/tor/keys/all");
    stage
}

#[test]
fn a_sync_fetches_what_is_missing_and_writes_four_files() {
    let mut cache = MicrodescCache::new();
    let stage = until_certs(&mut cache);
    match &stage {
        SyncStage::AwaitCerts { text, consensus } => {
            assert_eq!(text, CONSENSUS);
            assert_eq!(consensus.valid_after, at(0));
            assert_eq!(consensus.fresh_until, at(3600));
            assert_eq!(consensus.valid_until, at(10800));
            assert_eq!(consensus.end, Some(at(10800)));
            assert_eq!(consensus.digests, vec![DIGEST_1, DIGEST_2]);
            assert_eq!(
                consensus.relay_addrs,
                vec!["192.0.2.10:9001", "[2001:db8::10]:9001", "192.0.2.20:9001"]
            );
        }
        _ => panic!("no consensus"),
    }

    let (stage, action) =
        ok(step(stage, SyncEvent::Fetched(bytes("certs")), &mut cache, at(61)));
    assert_eq!(
        path_of(&action),
        "/tor/micro/d/AuuubEJnQpdxYnlHHjTXU8klbLOV/VvDs8S0Jml1DY8-FvuNMW3cSXfHBxVg7ecOwdybGUBV/igpV1kfr0Z3SNg"
    );

    let both = format!("{}{}", MD_1, MD_2);
    let (stage, action) = ok(step(stage, SyncEvent::Fetched(bytes(&both)), &mut cache, at(62)));
    assert_eq!(cache.len(), 2);
    assert_eq!(file_of(&action), ("consensus-microdesc", CONSENSUS.as_bytes()));

    let (stage, action) = ok(step(stage, SyncEvent::Written, &mut cache, at(63)));
    assert_eq!(file_of(&action), ("authority-certs", "certs".as_bytes()));

    let (stage, action) = ok(step(stage, SyncEvent::Written, &mut cache, at(64)));
    assert_eq!(file_of(&action), ("microdescs", both.as_bytes()));

    let (stage, action) = ok(step(stage, SyncEvent::Written, &mut cache, at(65)));
    let (name, data) = file_of(&action);
    assert_eq!(name, "metadata.json");
    let described: serde_json::Value = serde_json::from_slice(data).unwrap();
    assert_eq!(described["consensus_flavor"], "microdesc");
    assert_eq!(described["valid_after"], "2026-07-15T10:00:00Z");
    assert_eq!(described["fresh_until"], "2026-07-15T11:00:00Z");
    assert_eq!(described["valid_until"], "2026-07-15T13:00:00Z");
    assert_eq!(described["num_relays"], 2);
    assert_eq!(described["authority_certs_bytes"], 5);
    assert_eq!(described["num_microdescs_in_cache"], 2);
    assert_eq!(described["num_microdescs_missing"], 0);
    assert_eq!(described["microdescs_bytes"], both.len());
    assert_eq!(described["synced_at"], "2026-07-15T10:01:05Z");
    assert_eq!(described.as_object().unwrap().len(), 10);
    assert!(data.contains(&b'\n'));

    let (stage, action) = ok(step(stage, SyncEvent::Written, &mut cache, at(66)));
    assert!(matches!(stage, SyncStage::Finished));
    match action {
        SyncAction::Finish { fresh_until, valid_until, relay_addrs } => {
            assert_eq!(fresh_until, at(3600));
            assert_eq!(valid_until, at(10800));
            assert_eq!(
                relay_addrs,
                vec!["192.0.2.10:9001", "[2001:db8::10]:9001", "192.0.2.20:9001"]
            );
        }
        _ => panic!("the sync goes on"),
    }
}

fn diff_from(consensus: &ConsensusCache) -> Option<String> {
    match begin_sync(consensus).1 {
        SyncAction::Fetch { path, diff_from } => {
            assert_eq!(path, "/tor/status-vote/current/consensus-microdesc");
            diff_from
        }
        _ => panic!("nothing is requested"),
    }
}

/// Runs a sync, with all microdescriptors cached, whose first response is `response`; the file
/// of the consensus.
fn whole_sync(consensus: &mut ConsensusCache, response: &str) -> Vec<u8> {
    let mut cache = MicrodescCache::new();
    cache.ingest(MD_1);
    cache.ingest(MD_2);
    let mut file = Vec::new();
    let before = diff_from(consensus);
    let mut stage = begin_sync(consensus).0;
    for event in [
        SyncEvent::Fetched(bytes(response)),
        SyncEvent::Fetched(bytes("certs")),
        SyncEvent::Written,
        SyncEvent::Written,
        SyncEvent::Written,
    ] {
        let (next, action) = ok(sync_once(stage, event, consensus, &mut cache, at(60)));
        stage = next;
        if let SyncAction::Write { name, data } = action {
            if name == "consensus-microdesc" {
                file = data;
            }
        }
        assert_eq!(diff_from(consensus), before);
    }
    let (stage, _) = ok(sync_once(stage, SyncEvent::Written, consensus, &mut cache, at(60)));
    assert!(matches!(stage, SyncStage::Finished));
    file
}

#[test]
fn a_sync_asks_for_a_diff_against_the_last_consensus() {
    let mut consensus = ConsensusCache::new();
    assert_eq!(diff_from(&consensus), None);
    assert_eq!(whole_sync(&mut consensus, CONSENSUS), CONSENSUS.as_bytes());
    assert_eq!(diff_from(&consensus), Some(CONSENSUS_HEX.to_string()));

    // A sync that fails leaves the last consensus.
    let mut cache = MicrodescCache::new();
    let (stage, _) = begin_sync(&consensus);
    let r = sync_once(stage, SyncEvent::FetchFailed, &mut consensus, &mut cache, at(60));
    assert!(r.is_err());
    assert_eq!(diff_from(&consensus), Some(CONSENSUS_HEX.to_string()));

    // A sync that gets a diff goes on from what it gives.
    assert_eq!(whole_sync(&mut consensus, DIFF), changed().as_bytes());
    assert_eq!(diff_from(&consensus), Some(CHANGED_HEX.to_string()));

    // One that gets a whole consensus takes it as it is.
    assert_eq!(whole_sync(&mut consensus, CONSENSUS), CONSENSUS.as_bytes());
    assert_eq!(diff_from(&consensus), Some(CONSENSUS_HEX.to_string()));
}

#[test]
fn a_response_is_resolved_against_the_last_consensus() {
    let mut consensus = ConsensusCache::new();
    match consensus.resolve_response("any text".to_string()) {
        Ok(text) => assert_eq!(text, "any text"),
        Err(_) => panic!("not taken"),
    }
    let r = consensus.resolve_response(DIFF.to_string());
    assert!(matches!(r, Err(ResolveError::NoConsensus)));

    consensus.update(CONSENSUS.to_string());
    assert_eq!(consensus.diff_hex(), Some(CONSENSUS_HEX.to_string()));
    match consensus.resolve_response(DIFF.to_string()) {
        Ok(text) => assert_eq!(text, changed()),
        Err(_) => panic!("not applied"),
    }
    match consensus.resolve_response(CONSENSUS.to_string()) {
        Ok(text) => assert_eq!(text, CONSENSUS),
        Err(_) => panic!("not taken"),
    }
    for bad in [
        "network-status-diff-version 2\n".to_string(),
        DIFF.replace("3c", "3000c"),
        DIFF.replace("29", "30"),
    ] {
        let r = consensus.resolve_response(bad);
        assert!(matches!(r, Err(ResolveError::Diff(_))));
    }

    consensus.update("no consensus".to_string());
    assert_eq!(consensus.diff_hex(), None);
}

#[test]
fn a_sync_fails_where_a_diff_cannot_be_applied() {
    let mut cache = MicrodescCache::new();
    let (stage, _) = begin_sync(&ConsensusCache::new());
    let r = step(stage, SyncEvent::Fetched(bytes(DIFF)), &mut cache, at(60));
    assert!(matches!(r, Err(SyncError::NoConsensus)));

    let mut consensus = ConsensusCache::new();
    consensus.update(changed());
    let (stage, _) = begin_sync(&consensus);
    let wrong = DIFF.replace("3c", "2c");
    let event = SyncEvent::Fetched(bytes(&wrong));
    let r = sync_once(stage, event, &mut consensus, &mut cache, at(60));
    assert!(matches!(r, Err(SyncError::Diff(_))));
    assert_eq!(diff_from(&consensus), Some(CHANGED_HEX.to_string()));
}

#[test]
fn digests_are_written_in_hexadecimal() {
    assert_eq!(hex(&[]), "");
    assert_eq!(hex(&[0x00, 0x0f, 0xa5, 0x90, 0xff]), "000FA590FF");
}

#[test]
fn the_addresses_of_all_relays_are_read() {
    match parse_consensus(CONSENSUS) {
        Ok(c) => assert_eq!(
            c.relay_addrs,
            vec!["192.0.2.10:9001", "[2001:db8::10]:9001", "192.0.2.20:9001"]
        ),
        Err(_) => panic!("not parsed"),
    }
    assert!(parse_consensus("no consensus").is_err());
}

#[test]
fn what_is_cached_is_not_fetched_and_what_is_not_listed_is_forgotten() {
    let mut cache = MicrodescCache::new();
    assert_eq!(cache.ingest(MD_3), 1);
    assert_eq!(cache.ingest(MD_2), 1);
    let stage = until_certs(&mut cache);
    let (_, action) = ok(step(stage, SyncEvent::Fetched(bytes("")), &mut cache, at(60)));
    assert_eq!(
        path_of(&action),
        "/tor/micro/d/AuuubEJnQpdxYnlHHjTXU8klbLOV/VvDs8S0Jml1DY8"
    );
    assert_eq!(cache.to_concatenated(), MD_2);
}

#[test]
fn nothing_is_fetched_where_everything_is_cached() {
    let mut cache = MicrodescCache::new();
    cache.ingest(MD_1);
    cache.ingest(MD_2);
    let stage = until_certs(&mut cache);
    let (_, action) = ok(step(stage, SyncEvent::Fetched(bytes("")), &mut cache, at(60)));
    assert_eq!(file_of(&action).0, "consensus-microdesc");
}

#[test]
fn a_failed_batch_is_passed_over() {
    let mut cache = MicrodescCache::new();
    let stage = until_certs(&mut cache);
    let (stage, _) = ok(step(stage, SyncEvent::Fetched(bytes("")), &mut cache, at(60)));
    let (stage, action) = ok(step(stage, SyncEvent::FetchFailed, &mut cache, at(60)));
    assert_eq!(file_of(&action).0, "consensus-microdesc");
    let (stage, _) = ok(step(stage, SyncEvent::Written, &mut cache, at(60)));
    let (stage, action) = ok(step(stage, SyncEvent::Written, &mut cache, at(60)));
    assert_eq!(file_of(&action), ("microdescs", "".as_bytes()));
    let (_, action) = ok(step(stage, SyncEvent::Written, &mut cache, at(60)));
    let described: serde_json::Value = serde_json::from_slice(file_of(&action).1).unwrap();
    assert_eq!(described["num_microdescs_missing"], 2);
    assert_eq!(described["num_microdescs_in_cache"], 0);
}

#[test]
fn a_sync_fails_where_a_document_is_missing_or_no_text() {
    let mut cache = MicrodescCache::new();
    let fetched = |b: &[u8]| SyncEvent::Fetched(b.to_vec());

    let (stage, _) = begin_sync(&ConsensusCache::new());
    let r = step(stage, SyncEvent::FetchFailed, &mut cache, at(60));
    assert!(matches!(r, Err(SyncError::Fetch)));

    let (stage, _) = begin_sync(&ConsensusCache::new());
    match step(stage, fetched(&[0xff]), &mut cache, at(60)) {
        Err(SyncError::NotText(m)) => assert_eq!(m, "consensus response is not valid UTF-8"),
        _ => panic!("taken for text"),
    }

    let stage = until_certs(&mut cache);
    let r = step(stage, SyncEvent::FetchFailed, &mut cache, at(60));
    assert!(matches!(r, Err(SyncError::Fetch)));

    let stage = until_certs(&mut cache);
    match step(stage, fetched(&[0xc3, 0x28]), &mut cache, at(60)) {
        Err(SyncError::NotText(m)) => assert_eq!(m, "authority certs are not valid UTF-8"),
        _ => panic!("taken for text"),
    }

    let stage = until_certs(&mut cache);
    let (stage, _) = ok(step(stage, fetched(b"certs"), &mut cache, at(60)));
    match step(stage, fetched(&[0x80]), &mut cache, at(60)) {
        Err(SyncError::NotText(m)) => assert_eq!(m, "microdesc response is not valid UTF-8"),
        _ => panic!("taken for text"),
    }
}

#[test]
fn a_sync_fails_where_a_file_cannot_be_written() {
    let mut cache = MicrodescCache::new();
    cache.ingest(MD_1);
    cache.ingest(MD_2);
    let stage = until_certs(&mut cache);
    let (stage, _) = ok(step(stage, SyncEvent::Fetched(bytes("")), &mut cache, at(60)));
    let r = step(stage, SyncEvent::WriteFailed, &mut cache, at(60));
    assert!(matches!(r, Err(SyncError::Write)));
}

#[test]
fn an_event_that_is_not_waited_for_is_an_error() {
    let mut cache = MicrodescCache::new();
    let (stage, _) = begin_sync(&ConsensusCache::new());
    let r = step(stage, SyncEvent::Written, &mut cache, at(60));
    assert!(matches!(r, Err(SyncError::OutOfOrder)));
    let r = step(SyncStage::Finished, SyncEvent::Written, &mut cache, at(60));
    assert!(matches!(r, Err(SyncError::OutOfOrder)));
}

#[test]
fn a_consensus_has_to_parse() {
    let mut cache = MicrodescCache::new();
    let (stage, _) = begin_sync(&ConsensusCache::new());
    let r = step(stage, SyncEvent::Fetched(bytes("no consensus")), &mut cache, at(60));
    assert!(matches!(r, Err(SyncError::Parse(_))));
}

#[test]
fn a_consensus_has_to_be_timely() {
    let mut cache = MicrodescCache::new();
    match step(SyncStage::AwaitConsensus, consensus_came(), &mut cache, at(10801)) {
        Err(SyncError::NotTimely(Timeliness::Expired(d))) => {
            assert_eq!(d, Duration::from_secs(1))
        }
        _ => panic!("taken after its end"),
    }
    match step(SyncStage::AwaitConsensus, consensus_came(), &mut cache, at(-100_000)) {
        Err(SyncError::NotTimely(Timeliness::NotYet(_))) => {}
        _ => panic!("taken before its start"),
    }
    ok(step(SyncStage::AwaitConsensus, consensus_came(), &mut cache, at(10799)));
}

#[test]
fn bounds_of_time_are_strict() {
    assert_eq!(check_valid_at(Some(at(0)), Some(at(10)), at(5)), Timeliness::Timely);
    assert_eq!(check_valid_at(None, None, at(5)), Timeliness::Timely);
    assert_eq!(
        check_valid_at(Some(at(0)), Some(at(10)), at(0)),
        Timeliness::NotYet(Duration { nanos: 0 })
    );
    assert_eq!(
        check_valid_at(Some(at(0)), Some(at(10)), at(-2)),
        Timeliness::NotYet(Duration::from_secs(2))
    );
    assert_eq!(
        check_valid_at(Some(at(0)), Some(at(10)), at(10)),
        Timeliness::Expired(Duration { nanos: 0 })
    );
    assert_eq!(
        check_valid_at(None, Some(at(10)), at(13)),
        Timeliness::Expired(Duration::from_secs(3))
    );
}

#[test]
fn a_time_without_a_year_of_four_digits_is_not_written() {
    let cache = MicrodescCache::new();
    let mut consensus = Consensus {
        start: None,
        end: None,
        valid_after: at(0),
        fresh_until: at(1),
        valid_until: at(2),
        digests: Vec::new(),
        relay_addrs: Vec::new(),
    };
    assert!(metadata(&consensus, "", &cache, at(0)).is_ok());
    assert!(matches!(
        metadata(&consensus, "", &cache, Timestamp { nanos: -1 }),
        Err(SyncError::Unprintable)
    ));
    consensus.valid_until = Timestamp { nanos: 253_402_300_800_000_000_000 };
    assert!(matches!(metadata(&consensus, "", &cache, at(0)), Err(SyncError::Unprintable)));
}

#[test]
fn batches_have_five_hundred_digests() {
    assert_eq!(microdesc_paths(&Vec::new()).len(), 0);
    assert_eq!(
        microdesc_paths(&vec![[0; 32]]),
        vec!["/tor/micro/d/AAAAAAAAAAAAAAAAAAAAAAAAAAAAAAAAAAAAAAAAAAA"]
    );
    let mut counting = [0; 32];
    for i in 0..32 {
        counting[i] = i as u8 * 8 + 3;
    }
    assert_eq!(
        microdesc_paths(&vec![counting]),
        vec![format!("/tor/micro/d/{}", "AwsTGyMrMztDS1NbY2tze4OLk5ujq7O7w8vT2+Pr8/s")]
    );
    let paths = microdesc_paths(&vec![[255; 32]; 1001]);
    assert_eq!(paths.len(), 3);
    let digests = |p: &str| p["/tor/micro/d/".len()..].split('-').count();
    assert_eq!(digests(&paths[0]), 500);
    assert_eq!(digests(&paths[1]), 500);
    assert_eq!(digests(&paths[2]), 1);
    assert_eq!(paths[2], "/tor/micro/d///////////////////////////////////////////8");
}

#[test]
fn the_next_sync_comes_in_the_first_half_interval() {
    assert_eq!(half_of_interval(at(0), at(100)), Duration::from_secs(50));
    assert_eq!(half_of_interval(at(0), at(0)), Duration { nanos: 0 });
    assert_eq!(half_of_interval(at(100), at(0)), Duration::from_secs(900));

    let offset = Duration::from_secs(30);
    assert_eq!(sync_delay(at(100), offset, at(50)), Duration::from_secs(80));
    assert_eq!(sync_delay(at(100), offset, at(130)), Duration { nanos: 0 });
    assert_eq!(sync_delay(at(100), offset, at(131)), Duration { nanos: 0 });

    for _ in 0..32 {
        let d = relay_sync_delay_at(at(100), at(200), at(90)).nanos;
        assert!(10_000_000_000 <= d && d <= 60_000_000_000);
    }
    assert_eq!(relay_sync_delay_at(at(100), at(200), at(150)), Duration { nanos: 0 });

    let past = relay_sync_delay(Timestamp { nanos: 0 }, Timestamp { nanos: 1 });
    assert_eq!(past, Duration { nanos: 0 });
    let far = Timestamp { nanos: 200_000_000_000_000_000_000 };
    let later = Timestamp { nanos: 200_000_000_200_000_000_000 };
    let one = relay_sync_delay(far, later).nanos;
    assert!(one > 0);
    let chosen = (0..64).map(|_| relay_sync_delay(far, later).nanos / 1_000_000_000);
    let mut seen: Vec<u128> = chosen.collect();
    seen.sort();
    seen.dedup();
    assert!(seen.len() > 10);
    assert!(seen[seen.len() - 1] - seen[0] <= 101);
}

#[test]
fn an_atomic_write_goes_through_a_file_of_its_own() {
    let dir = FilePath::from_text("/data");
    let (tmp, dst) = atomic_write(&dir, "metadata.json");
    assert_eq!(tmp.bytes, b"/data/metadata.json.tmp".to_vec());
    assert_eq!(dst.bytes, b"/data/metadata.json".to_vec());
}

#[test]
fn the_cache_keeps_the_first_of_each_digest() {
    let mut cache = MicrodescCache::new();
    assert_eq!(cache.len(), 0);
    assert_eq!(cache.missing(&vec![DIGEST_1, DIGEST_2]), vec![DIGEST_1, DIGEST_2]);
    assert_eq!(cache.ingest(&format!("{}{}{}", MD_1, MD_2, MD_1)), 2);
    assert_eq!(cache.ingest(MD_2), 0);
    assert_eq!(cache.ingest("no microdescriptor"), 0);
    assert_eq!(cache.len(), 2);
    assert_eq!(cache.missing(&vec![DIGEST_2, [7; 32], DIGEST_1]), vec![[7; 32]]);
    assert_eq!(cache.to_concatenated(), format!("{}{}", MD_1, MD_2));
    cache.retain(&vec![DIGEST_2, [7; 32]]);
    assert_eq!(cache.to_concatenated(), MD_2);
    assert_eq!(cache.missing(&vec![DIGEST_1]), vec![DIGEST_1]);
    cache.retain(&Vec::new());
    assert_eq!(cache.len(), 0);
}
