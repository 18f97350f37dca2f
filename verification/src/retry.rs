//! The retry queue: events whose application failed transiently, keyed by a
//! compressed index so repeated failures of one logical event collapse to
//! one record.
//!
//! `extract_retry_event_info` decides each failure's fate: malformed input
//! is discarded, every other application error is wrapped as a
//! [`RetryEvent`].  The key is
//! the operation together with a fixed-width digest of the URI, a
//! deterministic function of the URI alone, so the queue stays bounded no
//! matter how long URIs grow.  `enqueue` is an idempotent upsert.

use crate::events::{Event, EventError, EventType};
use vstd::prelude::*;
use vstd::string::StringSliceAdditionalSpecFns;
use vstd::utf8::encode_utf8;

verus! {

/// The compressed index of a URI, over its character sequence.
pub open spec fn uri_digest(s: Seq<char>) -> u64 {
    digest_of(encode_utf8(s))
}

/// One step of the 64-bit FNV-1a digest.
pub open spec fn digest_step(h: u64, b: u8) -> u64 {
    ((((h ^ (b as u64)) as int) * 0x100000001b3) % 0x10000000000000000) as u64
}

/// The 64-bit FNV-1a digest of a byte sequence.
pub open spec fn digest_of(bytes: Seq<u8>) -> u64
    decreases bytes.len(),
{
    if bytes.len() == 0 {
        0xcbf29ce484222325u64
    } else {
        digest_step(digest_of(bytes.drop_last()), bytes.last())
    }
}

/// The compressed index of a URI: the digest of its encoded bytes.
pub fn compress_uri(uri: &str) -> (r: u64)
    ensures
        r == digest_of(uri.spec_bytes()),
{
    let bytes = uri.as_bytes_vec();
    let mut h: u64 = 0xcbf29ce484222325;
    let mut i: usize = 0;
    while i < bytes.len()
        invariant
            i <= bytes@.len(),
            bytes@ == uri.spec_bytes(),
            h == digest_of(bytes@.take(i as int)),
        decreases bytes@.len() - i,
    {
        let b = bytes[i];
        let x: u64 = h ^ (b as u64);
        proof {
            assert((x as u128) * 0x100000001b3u128 <= 0xFFFFFFFFFFFFFFFFu128 * 0x100000001b3u128)
                by (nonlinear_arith)
                requires
                    (x as u128) <= 0xFFFFFFFFFFFFFFFFu128,
            ;
        }
        let wide: u128 = (x as u128) * 0x100000001b3u128;
        h = (wide % 0x10000000000000000u128) as u64;
        proof {
            assert(bytes@.take(i + 1 as int).drop_last() =~= bytes@.take(i as int));
            assert(bytes@.take(i + 1 as int).last() == bytes@[i as int]);
        }
        i = i + 1;
    }
    proof {
        assert(bytes@.take(bytes@.len() as int) =~= bytes@);
    }
    h
}

/// The key of a retry record: the operation and the compressed URI.
#[derive(Clone, Copy, PartialEq, Eq, Structural)]
pub struct RetryKey {
    pub put: bool,
    pub digest: u64,
}

/// A failed event, waiting for reprocessing by an external job.
pub struct RetryEvent {
    /// Why the application failed.
    pub error_kind: EventError,
    /// The resource URI the event carried.
    pub uri: String,
}

impl RetryEvent {
    pub fn new(error_kind: EventError, uri: String) -> (r: Self)
        ensures
            r.error_kind == error_kind,
            r.uri == uri,
    {
        RetryEvent { error_kind, uri }
    }
}

/// Extract the retry key and record for a failed event: malformed input is
/// discarded, everything else is keyed by operation and compressed URI.
pub fn extract_retry_event_info(event: &Event, error: EventError) -> (r: Option<
    (RetryKey, RetryEvent),
>)
    ensures
        match r {
            None => error == EventError::InvalidEventLine,
            Some((key, rev)) => {
                &&& error != EventError::InvalidEventLine
                &&& key.put == (event.event_type is Put)
                &&& key.digest == uri_digest(event.uri@)
                &&& rev.error_kind == error
                &&& rev.uri@ == event.uri@
            },
        },
{
    match error {
        EventError::InvalidEventLine => None,
        _ => {
            let digest = compress_uri(event.uri.as_str());
            let key = RetryKey { put: matches!(event.event_type, EventType::Put), digest };
            let rev = RetryEvent::new(error, event.uri.clone());
            Some((key, rev))
        },
    }
}

/// The retry queue: one record per logical failed event.
pub struct RetryQueue {
    entries: Vec<(RetryKey, RetryEvent)>,
}

/// What a retry association sequence holds under `k`, scanning from the
/// front.
pub open spec fn retry_get(s: Seq<(RetryKey, RetryEvent)>, k: RetryKey) -> Option<RetryEvent>
    decreases s.len(),
{
    if s.len() == 0 {
        None
    } else if s[0].0 == k {
        Some(s[0].1)
    } else {
        retry_get(s.drop_first(), k)
    }
}

impl RetryQueue {
    /// The record queued under `k`, if any.
    pub closed spec fn spec_get(self, k: RetryKey) -> Option<RetryEvent> {
        retry_get(self.entries@, k)
    }

    /// How many distinct failed events are queued.
    pub closed spec fn spec_len(self) -> nat {
        self.entries@.len()
    }

    /// No key occurs twice.
    pub closed spec fn wf(self) -> bool {
        forall|i: int, j: int|
            #![trigger self.entries@[i].0, self.entries@[j].0]
            0 <= i < j < self.entries@.len() ==> self.entries@[i].0 != self.entries@[j].0
    }

    pub fn new() -> (r: Self)
        ensures
            r.wf(),
            r.spec_len() == 0,
            forall|k: RetryKey| #[trigger] r.spec_get(k) is None,
    {
        RetryQueue { entries: Vec::new() }
    }

    /// The first position holding `k`, if any.
    fn find(&self, k: RetryKey) -> (r: Option<usize>)
        ensures
            match r {
                Some(i) => i < self.entries@.len() && self.entries@[i as int].0 == k
                    && self.spec_get(k) == Some(self.entries@[i as int].1),
                None => self.spec_get(k) is None,
            },
    {
        let mut i: usize = 0;
        let n = self.entries.len();
        while i < n
            invariant
                i <= n,
                n == self.entries@.len(),
                forall|j: int| 0 <= j < i ==> (#[trigger] self.entries@[j]).0 != k,
            decreases n - i,
        {
            if self.entries[i].0.put == k.put && self.entries[i].0.digest == k.digest {
                proof {
                    lemma_retry_get_first_match(self.entries@, k, i as int);
                }
                return Some(i);
            }
            i = i + 1;
        }
        proof {
            lemma_retry_get_absent(self.entries@, k);
        }
        None
    }

    /// Whether a record is queued under `k`.
    pub fn contains(&self, k: RetryKey) -> (r: bool)
        ensures
            r == (self.spec_get(k) is Some),
    {
        self.find(k).is_some()
    }

    /// Idempotent upsert: repeated failures of the same logical event
    /// collapse to one retry record.
    pub fn enqueue(&mut self, k: RetryKey, rev: RetryEvent)
        requires
            old(self).wf(),
        ensures
            final(self).wf(),
            final(self).spec_get(k) == Some(rev),
            forall|q: RetryKey| q != k ==> #[trigger] final(self).spec_get(q) == old(self).spec_get(q),
            final(self).spec_len() == if old(self).spec_get(k) is Some {
                old(self).spec_len()
            } else {
                old(self).spec_len() + 1
            },
    {
        let ghost s0 = self.entries@;
        match self.find(k) {
            Some(i) => {
                self.entries.set(i, (k, rev));
                proof {
                    assert forall|q: RetryKey| true implies #[trigger] retry_get(self.entries@, q)
                        == if q == k {
                        Some(rev)
                    } else {
                        retry_get(s0, q)
                    } by {
                        lemma_retry_get_update(s0, i as int, k, rev, q);
                        assert(self.entries@ =~= s0.update(i as int, (k, rev)));
                    }
                    assert(forall|j: int|
                        0 <= j < self.entries@.len() ==> (#[trigger] self.entries@[j]).0
                            == s0[j].0);
                }
            },
            None => {
                self.entries.push((k, rev));
                proof {
                    assert(forall|j: int| 0 <= j < s0.len() ==> (#[trigger] s0[j]).0 != k) by {
                        if exists|j: int| 0 <= j < s0.len() && (#[trigger] s0[j]).0 == k {
                            let j = choose|j: int| 0 <= j < s0.len() && (#[trigger] s0[j]).0 == k;
                            lemma_retry_get_match_exists(s0, k, j);
                        }
                    }
                    assert forall|q: RetryKey| true implies #[trigger] retry_get(self.entries@, q)
                        == if q == k {
                        Some(rev)
                    } else {
                        retry_get(s0, q)
                    } by {
                        lemma_retry_get_push(s0, k, rev, q);
                        assert(self.entries@ =~= s0.push((k, rev)));
                    }
                    assert(forall|j: int|
                        0 <= j < s0.len() ==> (#[trigger] self.entries@[j]) == s0[j]);
                }
            },
        }
    }

    /// Fetch the queued record for `k`, if any.
    pub fn get(&self, k: RetryKey) -> (r: Option<&RetryEvent>)
        ensures
            match r {
                Some(v) => self.spec_get(k) == Some(*v),
                None => self.spec_get(k) is None,
            },
    {
        match self.find(k) {
            Some(i) => Some(&self.entries[i].1),
            None => None,
        }
    }

    /// Retire the record under `k` after successful reprocessing or expiry.
    pub fn remove(&mut self, k: RetryKey) -> (removed: bool)
        requires
            old(self).wf(),
        ensures
            final(self).wf(),
            removed == (old(self).spec_get(k) is Some),
            final(self).spec_get(k) is None,
            forall|q: RetryKey| q != k ==> #[trigger] final(self).spec_get(q) == old(self).spec_get(q),
    {
        let ghost s0 = self.entries@;
        match self.find(k) {
            Some(i) => {
                self.entries.remove(i);
                proof {
                    assert forall|q: RetryKey| true implies #[trigger] retry_get(self.entries@, q)
                        == if q == k {
                        None::<RetryEvent>
                    } else {
                        retry_get(s0, q)
                    } by {
                        lemma_retry_get_remove(s0, i as int, q);
                        assert(self.entries@ =~= s0.remove(i as int));
                        assert(s0[i as int].0 == k);
                    }
                    assert(forall|j: int|
                        0 <= j < self.entries@.len() ==> (#[trigger] self.entries@[j]) == s0.remove(
                            i as int,
                        )[j]);
                }
                true
            },
            None => false,
        }
    }
}

proof fn lemma_retry_get_first_match(s: Seq<(RetryKey, RetryEvent)>, k: RetryKey, i: int)
    requires
        0 <= i < s.len(),
        s[i].0 == k,
        forall|j: int| 0 <= j < i ==> (#[trigger] s[j]).0 != k,
    ensures
        retry_get(s, k) == Some(s[i].1),
    decreases i,
{
    if i > 0 {
        assert(s.drop_first()[i - 1] == s[i]);
        assert(forall|j: int| 0 <= j < i - 1 ==> (#[trigger] s.drop_first()[j]) == s[j + 1]);
        lemma_retry_get_first_match(s.drop_first(), k, i - 1);
    }
}

proof fn lemma_retry_get_absent(s: Seq<(RetryKey, RetryEvent)>, k: RetryKey)
    requires
        forall|j: int| 0 <= j < s.len() ==> (#[trigger] s[j]).0 != k,
    ensures
        retry_get(s, k) is None,
    decreases s.len(),
{
    if s.len() > 0 {
        assert(forall|j: int|
            0 <= j < s.drop_first().len() ==> (#[trigger] s.drop_first()[j]) == s[j + 1]);
        lemma_retry_get_absent(s.drop_first(), k);
    }
}

proof fn lemma_retry_get_match_exists(s: Seq<(RetryKey, RetryEvent)>, k: RetryKey, j: int)
    requires
        0 <= j < s.len(),
        s[j].0 == k,
    ensures
        retry_get(s, k) is Some,
    decreases j,
{
    if s[0].0 != k {
        assert(s.drop_first()[j - 1] == s[j]);
        lemma_retry_get_match_exists(s.drop_first(), k, j - 1);
    }
}

proof fn lemma_retry_get_push(
    s: Seq<(RetryKey, RetryEvent)>,
    k: RetryKey,
    v: RetryEvent,
    q: RetryKey,
)
    requires
        forall|j: int| 0 <= j < s.len() ==> (#[trigger] s[j]).0 != k,
    ensures
        retry_get(s.push((k, v)), q) == if q == k {
            Some(v)
        } else {
            retry_get(s, q)
        },
    decreases s.len(),
{
    let t = s.push((k, v));
    if s.len() == 0 {
        assert(t[0] == (k, v));
        if q != k {
            assert(t.drop_first().len() == 0);
            assert(retry_get(t.drop_first(), q) is None);
            assert(retry_get(s, q) is None);
        }
    } else {
        assert(t[0] == s[0]);
        if s[0].0 == q {
        } else {
            assert(t.drop_first() =~= s.drop_first().push((k, v)));
            assert(forall|j: int|
                0 <= j < s.drop_first().len() ==> (#[trigger] s.drop_first()[j]) == s[j + 1]);
            lemma_retry_get_push(s.drop_first(), k, v, q);
        }
    }
}

proof fn lemma_retry_get_update(
    s: Seq<(RetryKey, RetryEvent)>,
    i: int,
    k: RetryKey,
    v: RetryEvent,
    q: RetryKey,
)
    requires
        forall|a: int, b: int|
            #![trigger s[a].0, s[b].0]
            0 <= a < b < s.len() ==> s[a].0 != s[b].0,
        0 <= i < s.len(),
        s[i].0 == k,
    ensures
        retry_get(s.update(i, (k, v)), q) == if q == k {
            Some(v)
        } else {
            retry_get(s, q)
        },
    decreases i,
{
    let t = s.update(i, (k, v));
    if i == 0 {
        assert(t[0] == (k, v));
        if q != k {
            assert(t.drop_first() =~= s.drop_first());
        }
    } else {
        assert(t[0] == s[0]);
        assert(s[0].0 != k);
        assert(t.drop_first() =~= s.drop_first().update(i - 1, (k, v)));
        assert(forall|j: int|
            0 <= j < s.drop_first().len() ==> (#[trigger] s.drop_first()[j]) == s[j + 1]);
        assert(s.drop_first()[i - 1] == s[i]);
        lemma_retry_get_update(s.drop_first(), i - 1, k, v, q);
    }
}

proof fn lemma_retry_get_remove(s: Seq<(RetryKey, RetryEvent)>, i: int, q: RetryKey)
    requires
        forall|a: int, b: int|
            #![trigger s[a].0, s[b].0]
            0 <= a < b < s.len() ==> s[a].0 != s[b].0,
        0 <= i < s.len(),
    ensures
        retry_get(s.remove(i), q) == if q == s[i].0 {
            None::<RetryEvent>
        } else {
            retry_get(s, q)
        },
    decreases i,
{
    let t = s.remove(i);
    if i == 0 {
        assert(t =~= s.drop_first());
        if q == s[0].0 {
            assert(forall|j: int| 0 <= j < t.len() ==> (#[trigger] t[j]) == s[j + 1]);
            lemma_retry_get_absent(t, q);
        }
    } else {
        assert(t[0] == s[0]);
        assert(s[0].0 != s[i].0);
        assert(t.drop_first() =~= s.drop_first().remove(i - 1));
        assert(forall|j: int|
            0 <= j < s.drop_first().len() ==> (#[trigger] s.drop_first()[j]) == s[j + 1]);
        assert(s.drop_first()[i - 1] == s[i]);
        lemma_retry_get_remove(s.drop_first(), i - 1, q);
    }
}

} // verus!
