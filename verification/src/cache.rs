//! Caches of the last consensus, and of microdescriptors, each under its digest.

use tor_netdoc::doc::microdesc::MicrodescReader;
use tor_netdoc::AllowAnnotations;
use vstd::prelude::*;

use crate::consensus::{apply_diff, diff_digest, digest_for_diff, resolved_text};
use crate::text::{starts_with, text_in};

verus! {

/// The SHA-256 digest of a microdescriptor.
pub type Digest = [u8; 32];

/// The bytes of digests.
pub open spec fn digest_views(v: Seq<Digest>) -> Seq<Seq<u8>> {
    v.map_values(|d: Digest| d@)
}

/// Outside type: the error of `tor_netdoc`.
#[verifier::external_type_specification]
#[verifier::external_body]
pub struct ExNetdocError(tor_netdoc::Error);

/// A microdescriptor with its digest.
pub struct Microdesc {
    pub digest: Digest,
    pub text: String,
}

impl View for Microdesc {
    type V = (Seq<u8>, Seq<char>);

    open spec fn view(&self) -> (Seq<u8>, Seq<char>) {
        (self.digest@, self.text@)
    }
}

/// What microdescriptors say.
pub open spec fn microdesc_views(v: Seq<Microdesc>) -> Seq<(Seq<u8>, Seq<char>)> {
    v.map_values(|m: Microdesc| m@)
}

/// What the entries of a document say; `None` for one that is malformed.
pub open spec fn entry_views(v: Seq<Option<Microdesc>>) -> Seq<Option<(Seq<u8>, Seq<char>)>> {
    v.map_values(
        |o: Option<Microdesc>|
            match o {
                Some(m) => Some(m@),
                None => None,
            },
    )
}

/// The entries of a document of microdescriptors, each with its digest and its own text, or
/// `None` for one that is malformed.
pub uninterp spec fn microdesc_entries(text: Seq<char>) -> Seq<Option<(Seq<u8>, Seq<char>)>>;

/// Reads a document of microdescriptors with `tor_netdoc`'s `MicrodescReader`, annotations not
/// allowed. The entries depend on the text and nothing else; the grammar is not stated, nor that
/// the digest is that of the text. A text that the reader does not take has no entries.
#[verifier::external_body]
fn read_microdescs(text: &str) -> (r: Vec<Option<Microdesc>>)
    ensures
        entry_views(r@) == microdesc_entries(text@),
{
    let reader = MicrodescReader::new(text, &AllowAnnotations::AnnotationsNotAllowed);
    let entry = |m: tor_netdoc::doc::microdesc::AnnotatedMicrodesc| {
        let own = m.within(text)?.to_string();
        Some(Microdesc { digest: *m.md().digest(), text: own })
    };
    reader.into_iter().flatten().map(|found| found.ok().and_then(entry)).collect()
}

fn same_digest(a: &Digest, b: &Digest) -> (r: bool)
    ensures
        r == (a@ == b@),
{
    let mut i: usize = 0;
    while i < 32
        invariant
            i <= 32,
            forall|k: int| 0 <= k < i ==> #[trigger] a@[k] == b@[k],
        decreases 32 - i,
    {
        if a[i] != b[i] {
            return false;
        }
        i += 1;
    }
    assert(a@ =~= b@);
    true
}

fn among(digests: &Vec<Digest>, d: &Digest) -> (r: bool)
    ensures
        r == digest_views(digests@).contains(d@),
{
    let n: usize = digests.len();
    let mut i: usize = 0;
    while i < n
        invariant
            i <= n,
            n == digests@.len(),
            forall|k: int| 0 <= k < i ==> (#[trigger] digests@[k])@ != d@,
        decreases n - i,
    {
        if same_digest(&digests[i], d) {
            assert(digest_views(digests@)[i as int] == d@);
            return true;
        }
        i += 1;
    }
    assert forall|k: int| 0 <= k < digest_views(digests@).len() implies digest_views(digests@)[k]
        != d@ by {
        assert(digests@[k]@ != d@);
    }
    false
}

/// The digests of cached microdescriptors.
pub open spec fn cached_digests(entries: Seq<(Seq<u8>, Seq<char>)>) -> Seq<Seq<u8>> {
    entries.map_values(|e: (Seq<u8>, Seq<char>)| e.0)
}

/// The predicate of the entries whose digest is among `digests`.
pub open spec fn listed_in(digests: Seq<Seq<u8>>) -> spec_fn((Seq<u8>, Seq<char>)) -> bool {
    |e: (Seq<u8>, Seq<char>)| digests.contains(e.0)
}

/// The predicate of the digests that are not cached.
pub open spec fn not_cached(entries: Seq<(Seq<u8>, Seq<char>)>) -> spec_fn(Seq<u8>) -> bool {
    |d: Seq<u8>| !cached_digests(entries).contains(d)
}

/// The cache after the entries of a document were taken in: what is well-formed and not there
/// yet, in order.
pub open spec fn ingested(
    entries: Seq<(Seq<u8>, Seq<char>)>,
    found: Seq<Option<(Seq<u8>, Seq<char>)>>,
) -> Seq<(Seq<u8>, Seq<char>)>
    decreases found.len(),
{
    if found.len() == 0 {
        entries
    } else {
        let before = ingested(entries, found.drop_last());
        match found.last() {
            Some(e) => if cached_digests(before).contains(e.0) {
                before
            } else {
                before.push(e)
            },
            None => before,
        }
    }
}

/// The texts of the cached microdescriptors, one after the other.
pub open spec fn concatenated(entries: Seq<(Seq<u8>, Seq<char>)>) -> Seq<char>
    decreases entries.len(),
{
    if entries.len() == 0 {
        seq![]
    } else {
        concatenated(entries.drop_last()) + entries.last().1
    }
}

/// Microdescriptors by digest, in the order in which they were taken in.
pub struct MicrodescCache {
    entries: Vec<Microdesc>,
}

impl View for MicrodescCache {
    type V = Seq<(Seq<u8>, Seq<char>)>;

    closed spec fn view(&self) -> Seq<(Seq<u8>, Seq<char>)> {
        microdesc_views(self.entries@)
    }
}

impl MicrodescCache {
    /// No digest is cached twice.
    pub open spec fn wf(self) -> bool {
        cached_digests(self@).no_duplicates()
    }

    /// An empty cache.
    pub fn new() -> (r: MicrodescCache)
        ensures
            r@ == Seq::<(Seq<u8>, Seq<char>)>::empty(),
            r.wf(),
    {
        let r = MicrodescCache { entries: Vec::new() };
        assert(r@ =~= Seq::empty());
        r
    }

    /// The number of microdescriptors in the cache.
    pub fn len(&self) -> (r: usize)
        ensures
            r == self@.len(),
    {
        self.entries.len()
    }

    fn has(&self, d: &Digest) -> (r: bool)
        ensures
            r == cached_digests(self@).contains(d@),
    {
        let n: usize = self.entries.len();
        let mut i: usize = 0;
        while i < n
            invariant
                i <= n,
                n == self.entries@.len(),
                forall|k: int| 0 <= k < i ==> (#[trigger] self.entries@[k]).digest@ != d@,
            decreases n - i,
        {
            if same_digest(&self.entries[i].digest, d) {
                assert(cached_digests(self@)[i as int] == d@);
                return true;
            }
            i += 1;
        }
        assert forall|k: int| 0 <= k < cached_digests(self@).len() implies cached_digests(
            self@,
        )[k] != d@ by {
            assert(self.entries@[k].digest@ != d@);
        }
        false
    }

    /// The digests, of those given, that are not cached, in their order.
    pub fn missing(&self, digests: &Vec<Digest>) -> (r: Vec<Digest>)
        ensures
            digest_views(r@) == digest_views(digests@).filter(not_cached(self@)),
    {
        let mut r: Vec<Digest> = Vec::new();
        let n: usize = digests.len();
        let mut i: usize = 0;
        let ghost all = digest_views(digests@);
        let ghost p = not_cached(self@);
        assert(all.take(0) =~= seq![]);
        assert(digest_views(r@) =~= all.take(0).filter(p)) by {
            reveal(Seq::filter);
        }
        while i < n
            invariant
                i <= n,
                n == digests@.len(),
                all == digest_views(digests@),
                p == not_cached(self@),
                digest_views(r@) == all.take(i as int).filter(p),
            decreases n - i,
        {
            let ghost before = r@;
            let d: Digest = digests[i];
            proof {
                assert(all.take(i + 1) =~= all.take(i as int).push(d@));
                lemma_filter_push(all.take(i as int), p, d@);
            }
            if !self.has(&d) {
                r.push(d);
                assert(digest_views(r@) =~= digest_views(before).push(d@));
            }
            i += 1;
        }
        assert(all.take(n as int) =~= all);
        r
    }

    /// Forgets every microdescriptor whose digest is not given.
    pub fn retain(&mut self, digests: &Vec<Digest>)
        requires
            old(self).wf(),
        ensures
            final(self)@ == old(self)@.filter(listed_in(digest_views(digests@))),
            final(self).wf(),
    {
        let ghost all = self@;
        let ghost p = listed_in(digest_views(digests@));
        let mut kept: Vec<Microdesc> = Vec::new();
        let mut rest: Vec<Microdesc> = Vec::new();
        std::mem::swap(&mut rest, &mut self.entries);
        let n: usize = rest.len();
        let mut i: usize = 0;
        assert(all.take(0) =~= seq![]);
        assert(microdesc_views(kept@) =~= all.take(0).filter(p)) by {
            reveal(Seq::filter);
        }
        while i < n
            invariant
                i <= n,
                n == rest@.len(),
                all == microdesc_views(rest@),
                p == listed_in(digest_views(digests@)),
                microdesc_views(kept@) == all.take(i as int).filter(p),
            decreases n - i,
        {
            let ghost before = kept@;
            let ghost e = rest@[i as int]@;
            proof {
                assert(all.take(i + 1) =~= all.take(i as int).push(e));
                lemma_filter_push(all.take(i as int), p, e);
            }
            if among(digests, &rest[i].digest) {
                kept.push(Microdesc { digest: rest[i].digest, text: rest[i].text.clone() });
                assert(microdesc_views(kept@) =~= microdesc_views(before).push(e));
            }
            i += 1;
        }
        assert(all.take(n as int) =~= all);
        self.entries = kept;
        proof {
            lemma_filter_keeps_distinct(all, p);
        }
    }

    /// Takes in the microdescriptors of a document; returns how many were new.
    pub fn ingest(&mut self, text: &str) -> (r: usize)
        requires
            old(self).wf(),
        ensures
            final(self)@ == ingested(old(self)@, microdesc_entries(text@)),
            final(self).wf(),
            r == final(self)@.len() - old(self)@.len(),
    {
        let found = read_microdescs(text);
        let ghost all = entry_views(found@);
        let ghost start = self@;
        let n: usize = found.len();
        let mut i: usize = 0;
        let mut added: usize = 0;
        assert(all.take(0) =~= seq![]);
        while i < n
            invariant
                i <= n,
                n == found@.len(),
                all == entry_views(found@),
                self@ == ingested(start, all.take(i as int)),
                self.wf(),
                added == self@.len() - start.len(),
                added <= i,
            decreases n - i,
        {
            assert(all.take(i + 1).drop_last() =~= all.take(i as int));
            let ghost before = self@;
            match &found[i] {
                Some(m) => {
                    assert(all[i as int] == Some(m@));
                    if !self.has(&m.digest) {
                        self.entries.push(Microdesc { digest: m.digest, text: m.text.clone() });
                        added += 1;
                        assert(self@ =~= before.push(m@));
                        assert(cached_digests(self@) =~= cached_digests(before).push(m@.0));
                    }
                },
                None => {
                    assert(all[i as int] is None);
                },
            }
            i += 1;
        }
        assert(all.take(n as int) =~= all);
        added
    }

    /// The texts of the cached microdescriptors, one after the other.
    pub fn to_concatenated(&self) -> (r: String)
        ensures
            r@ == concatenated(self@),
    {
        let mut r = String::new();
        let n: usize = self.entries.len();
        let mut i: usize = 0;
        assert(self@.take(0) =~= seq![]);
        while i < n
            invariant
                i <= n,
                n == self.entries@.len(),
                r@ == concatenated(self@.take(i as int)),
            decreases n - i,
        {
            r.append(self.entries[i].text.as_str());
            assert(self@.take(i + 1).drop_last() =~= self@.take(i as int));
            i += 1;
        }
        assert(self@.take(n as int) =~= self@);
        r
    }
}

proof fn lemma_filter_push<A>(s: Seq<A>, p: spec_fn(A) -> bool, x: A)
    ensures
        s.push(x).filter(p) == (if p(x) {
            s.filter(p).push(x)
        } else {
            s.filter(p)
        }),
{
    reveal(Seq::filter);
    assert(s.push(x).drop_last() =~= s);
}

proof fn lemma_filter_members<A>(s: Seq<A>, p: spec_fn(A) -> bool, x: A)
    ensures
        s.filter(p).contains(x) <==> s.contains(x) && p(x),
    decreases s.len(),
{
    reveal(Seq::filter);
    if s.len() > 0 {
        let t = s.drop_last();
        lemma_filter_members(t, p, x);
        assert(s =~= t.push(s.last()));
        if t.contains(x) {
            let i = choose|i: int| 0 <= i < t.len() && t[i] == x;
            assert(s[i] == x);
        }
        if s.contains(x) && x != s.last() {
            let i = choose|i: int| 0 <= i < s.len() && s[i] == x;
            assert(t[i] == x);
        }
        if t.filter(p).contains(x) && p(s.last()) {
            let i = choose|i: int| 0 <= i < t.filter(p).len() && t.filter(p)[i] == x;
            assert(t.filter(p).push(s.last())[i] == x);
        }
        if p(s.last()) {
            let f = t.filter(p).push(s.last());
            assert(f[f.len() - 1] == s.last());
            if f.contains(x) && x != s.last() {
                let i = choose|i: int| 0 <= i < f.len() && f[i] == x;
                assert(t.filter(p)[i] == x);
            }
        }
        assert(s[s.len() - 1] == s.last());
    }
}

proof fn lemma_filter_keeps_distinct(
    s: Seq<(Seq<u8>, Seq<char>)>,
    p: spec_fn((Seq<u8>, Seq<char>)) -> bool,
)
    requires
        cached_digests(s).no_duplicates(),
    ensures
        cached_digests(s.filter(p)).no_duplicates(),
        forall|d: Seq<u8>| #[trigger]
            cached_digests(s.filter(p)).contains(d) ==> cached_digests(s).contains(d),
    decreases s.len(),
{
    reveal(Seq::filter);
    if s.len() > 0 {
        let t = s.drop_last();
        let l = s.last();
        assert(cached_digests(t) =~= cached_digests(s).drop_last());
        lemma_filter_keeps_distinct(t, p);
        assert(s =~= t.push(l));
        lemma_filter_push(t, p, l);
        assert forall|d: Seq<u8>| cached_digests(t).contains(d) implies cached_digests(s).contains(
            d,
        ) by {
            let i = choose|i: int| 0 <= i < cached_digests(t).len() && cached_digests(t)[i] == d;
            assert(cached_digests(s)[i] == d);
        }
        if p(l) {
            let f = t.filter(p);
            assert(cached_digests(f.push(l)) =~= cached_digests(f).push(l.0));
            assert(!cached_digests(f).contains(l.0)) by {
                if cached_digests(f).contains(l.0) {
                    let i = choose|i: int|
                        0 <= i < cached_digests(t).len() && cached_digests(t)[i] == l.0;
                    assert(cached_digests(s)[i] == cached_digests(s)[s.len() - 1]);
                }
            }
            assert forall|d: Seq<u8>| #[trigger]
                cached_digests(s.filter(p)).contains(d) implies cached_digests(s).contains(d) by {
                if d == l.0 {
                    assert(cached_digests(s)[s.len() - 1] == d);
                } else {
                    let g = cached_digests(f).push(l.0);
                    let i = choose|i: int| 0 <= i < g.len() && g[i] == d;
                    assert(cached_digests(f)[i] == d);
                    assert(cached_digests(f).contains(d));
                    assert(cached_digests(t).contains(d));
                }
            }
        }
    }
}

/// A digest is missing exactly where it was asked for and is not cached.
pub proof fn law_missing_or_cached(
    entries: Seq<(Seq<u8>, Seq<char>)>,
    digests: Seq<Seq<u8>>,
    d: Seq<u8>,
)
    requires
        digests.contains(d),
    ensures
        digests.filter(not_cached(entries)).contains(d) <==> !cached_digests(entries).contains(d),
{
    lemma_filter_members(digests, not_cached(entries), d);
}

/// What a cache is told to keep stays, what it is not told to keep goes, and nothing is added.
pub proof fn law_retain(
    entries: Seq<(Seq<u8>, Seq<char>)>,
    digests: Seq<Seq<u8>>,
    e: (Seq<u8>, Seq<char>),
)
    ensures
        entries.filter(listed_in(digests)).contains(e) <==> entries.contains(e)
            && digests.contains(e.0),
{
    lemma_filter_members(entries, listed_in(digests), e);
}

/// Whether an entry is well-formed and has this digest.
pub open spec fn has_digest(entry: Option<(Seq<u8>, Seq<char>)>, d: Seq<u8>) -> bool {
    entry matches Some(e) && e.0 == d
}

/// Whether a document has a well-formed entry with this digest.
pub open spec fn offered(found: Seq<Option<(Seq<u8>, Seq<char>)>>, d: Seq<u8>) -> bool {
    exists|i: int| 0 <= i < found.len() && has_digest(#[trigger] found[i], d)
}

/// What is cached stays as it is when a document is taken in, and every well-formed entry of the
/// document is cached then, unless its digest was; nothing else is.
pub proof fn law_ingest(
    entries: Seq<(Seq<u8>, Seq<char>)>,
    found: Seq<Option<(Seq<u8>, Seq<char>)>>,
    d: Seq<u8>,
)
    ensures
        entries.is_prefix_of(ingested(entries, found)),
        cached_digests(ingested(entries, found)).contains(d) <==> cached_digests(entries).contains(
            d,
        ) || offered(found, d),
    decreases found.len(),
{
    let after = ingested(entries, found);
    if found.len() > 0 {
        let head = found.drop_last();
        let before = ingested(entries, head);
        law_ingest(entries, head, d);
        if offered(head, d) {
            let i = choose|i: int|
                0 <= i < head.len() && has_digest(#[trigger] head[i], d);
            assert(found[i] == head[i]);
        }
        if offered(found, d) && !offered(head, d) {
            let i = choose|i: int|
                0 <= i < found.len() && has_digest(#[trigger] found[i], d);
            if i < head.len() {
                assert(head[i] == found[i]);
            }
        }
        if let Some(e) = found.last() {
            assert(found[found.len() - 1] == Some(e));
            if !cached_digests(before).contains(e.0) {
                let a = cached_digests(before);
                let b = cached_digests(after);
                assert(b =~= a.push(e.0));
                assert(b[b.len() - 1] == e.0);
                if a.contains(d) {
                    let i = choose|i: int| 0 <= i < a.len() && a[i] == d;
                    assert(b[i] == d);
                }
                if b.contains(d) && d != e.0 {
                    let i = choose|i: int| 0 <= i < b.len() && b[i] == d;
                    assert(a[i] == d);
                }
            }
        }
    }
}

/// Why a response does not give a consensus.
pub enum ResolveError {
    /// It is a diff, and there is no consensus to apply it to.
    NoConsensus,
    /// It is a diff that cannot be applied.
    Diff(tor_consdiff::Error),
}

/// The consensus of the last sync that succeeded, if any.
pub struct ConsensusCache {
    held: Option<String>,
}

impl View for ConsensusCache {
    type V = Option<Seq<char>>;

    closed spec fn view(&self) -> Option<Seq<char>> {
        text_in(self.held)
    }
}

/// The digest of the consensus that is held, if any.
pub open spec fn digest_held(held: Option<Seq<char>>) -> Option<Seq<char>> {
    match held {
        Some(text) => diff_digest(text),
        None => None,
    }
}

impl ConsensusCache {
    /// A cache that holds no consensus.
    pub fn new() -> (r: ConsensusCache)
        ensures
            r@ is None,
    {
        ConsensusCache { held: None }
    }

    /// The digest by which a diff against the consensus is asked for, where one is held.
    pub fn diff_hex(&self) -> (r: Option<String>)
        ensures
            text_in(r) == digest_held(self@),
    {
        match &self.held {
            Some(text) => digest_for_diff(text.as_str()),
            None => None,
        }
    }

    /// Turns a response into the text of the consensus: a diff is applied to the consensus that
    /// is held, and anything else is the consensus itself.
    pub fn resolve_response(&self, response: String) -> (r: Result<String, ResolveError>)
        ensures
            match (r, resolved_text(self@, response@)) {
                (Ok(a), Some(b)) => a@ == b,
                (Err(e), None) => e is NoConsensus <==> self@ is None,
                _ => false,
            },
    {
        if !starts_with(response.as_str(), "network-status-diff-version") {
            return Ok(response);
        }
        match &self.held {
            Some(last) => match apply_diff(last.as_str(), response.as_str()) {
                Ok(text) => Ok(text),
                Err(e) => Err(ResolveError::Diff(e)),
            },
            None => Err(ResolveError::NoConsensus),
        }
    }

    /// Holds a consensus in place of the last one.
    pub fn update(&mut self, text: String)
        ensures
            final(self)@ == Some(text@),
    {
        self.held = Some(text);
    }
}

/// The texts of the cached microdescriptors follow each other, whole and in order, with nothing
/// between them.
pub proof fn law_concatenation(
    first: Seq<(Seq<u8>, Seq<char>)>,
    second: Seq<(Seq<u8>, Seq<char>)>,
    one: (Seq<u8>, Seq<char>),
)
    ensures
        concatenated(first + second) == concatenated(first) + concatenated(second),
        concatenated(seq![one]) == one.1,
        concatenated(Seq::<(Seq<u8>, Seq<char>)>::empty()) == Seq::<char>::empty(),
    decreases second.len(),
{
    let single = seq![one];
    reveal_with_fuel(concatenated, 2);
    assert(single.drop_last() =~= Seq::empty());
    assert(concatenated(single) =~= one.1);
    let all = first + second;
    if second.len() == 0 {
        assert(all =~= first);
        assert(concatenated(first) + concatenated(second) =~= concatenated(first));
    } else {
        law_concatenation(first, second.drop_last(), one);
        assert(all.drop_last() =~= first + second.drop_last());
        assert(concatenated(all) =~= concatenated(first) + concatenated(second));
    }
}

/// Every entry that a document adds to the cache is one of the document, with its digest and its
/// own text as they are there, and the first one of its digest.
pub proof fn law_ingest_takes_entries_whole(
    entries: Seq<(Seq<u8>, Seq<char>)>,
    found: Seq<Option<(Seq<u8>, Seq<char>)>>,
    i: int,
)
    requires
        entries.len() <= i < ingested(entries, found).len(),
    ensures
        exists|k: int|
            0 <= k < found.len() && #[trigger] found[k] == Some(ingested(entries, found)[i])
                && forall|j: int|
                0 <= j < k ==> !has_digest(#[trigger] found[j], ingested(entries, found)[i].0),
    decreases found.len(),
{
    let after = ingested(entries, found);
    if found.len() > 0 {
        let head = found.drop_last();
        let before = ingested(entries, head);
        if i < before.len() {
            law_ingest_takes_entries_whole(entries, head, i);
            let k = choose|k: int|
                0 <= k < head.len() && #[trigger] head[k] == Some(before[i]) && forall|j: int|
                    0 <= j < k ==> !has_digest(#[trigger] head[j], before[i].0);
            assert(found[k] == head[k]);
            assert(after[i] == before[i]);
            assert forall|j: int| 0 <= j < k implies !has_digest(#[trigger] found[j], after[i].0) by {
                assert(found[j] == head[j]);
            }
        } else {
            let k = found.len() - 1;
            assert(found[k] == Some(after[i]));
            law_ingest(entries, head, after[i].0);
            assert forall|j: int| 0 <= j < k implies !has_digest(#[trigger] found[j], after[i].0) by {
                if has_digest(found[j], after[i].0) {
                    assert(has_digest(head[j], after[i].0));
                    assert(offered(head, after[i].0));
                }
            }
        }
    }
}

/// The digests of what is cached are those of all entries, in order.
pub proof fn law_cached_digests(entries: Seq<(Seq<u8>, Seq<char>)>, i: int)
    ensures
        cached_digests(entries).len() == entries.len(),
        0 <= i < entries.len() ==> cached_digests(entries)[i] == entries[i].0,
{
}

} // verus!
