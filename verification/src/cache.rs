//! The extraction cache: a fingerprint-keyed memo table with single-flight
//! semantics.  A first request for a key claims ownership and computes;
//! requests arriving while that computation is in flight are told to wait
//! for it rather than start another; completed results are served to every
//! later request.  Entries are confirmed by the exact key, so a fingerprint
//! collision can never serve the wrong result.

use vstd::prelude::*;
use vstd::wrapping::u64_specs;

use crate::cfb::CfbMode;
use crate::formats::EffectiveFormat;
use crate::reader::bytes_eq;

verus! {

/// Offset basis of the 64-bit FNV-1a hash.
pub const FNV_OFFSET: u64 = 0xcbf29ce484222325;

/// Prime of the 64-bit FNV-1a hash.
pub const FNV_PRIME: u64 = 0x100000001b3;

/// The FNV-1a hash of `s` continued from state `h`.
pub open spec fn spec_fnv1a(s: Seq<u8>, h: u64) -> u64
    decreases s.len(),
{
    if s.len() == 0 {
        h
    } else {
        spec_fnv1a(s.drop_first(), u64_specs::wrapping_mul(h ^ (s[0] as u64), FNV_PRIME))
    }
}

/// Hashes bytes into a running FNV-1a state.
pub fn fnv1a(s: &[u8], h0: u64) -> (r: u64)
    ensures
        r == spec_fnv1a(s@, h0),
{
    let n = s.len();
    let mut h = h0;
    let mut i: usize = 0;
    assert(s@.skip(0) =~= s@);
    while i < n
        invariant
            i <= n == s@.len(),
            spec_fnv1a(s@, h0) == spec_fnv1a(s@.skip(i as int), h),
        decreases n - i,
    {
        proof {
            assert(s@.skip(i as int)[0] == s@[i as int]);
            assert(s@.skip(i as int).drop_first() =~= s@.skip(i + 1));
        }
        h = (h ^ (s[i] as u64)).wrapping_mul(FNV_PRIME);
        i = i + 1;
    }
    h
}

/// The full cache key: the request bytes together with the subset of the
/// configuration that affects the output.
pub struct CacheKey {
    /// The request bytes.
    pub bytes: Vec<u8>,
    /// The resolved format.
    pub format: EffectiveFormat,
    /// Container parse mode.
    pub cfb_mode: CfbMode,
    /// Whether markup is stripped.
    pub html_sanitize: bool,
    /// Content length cap.
    pub max_content_length: Option<usize>,
}

/// Mathematical image of a cache key.
pub ghost struct CacheKeyV {
    pub bytes: Seq<u8>,
    pub format: EffectiveFormat,
    pub cfb_mode: CfbMode,
    pub html_sanitize: bool,
    pub max_content_length: Option<usize>,
}

impl View for CacheKey {
    type V = CacheKeyV;

    open spec fn view(&self) -> CacheKeyV {
        CacheKeyV {
            bytes: self.bytes@,
            format: self.format,
            cfb_mode: self.cfb_mode,
            html_sanitize: self.html_sanitize,
            max_content_length: self.max_content_length,
        }
    }
}

/// A tag byte per format, mixed into the fingerprint.
pub open spec fn spec_format_tag(f: EffectiveFormat) -> u8 {
    match f {
        EffectiveFormat::Email => 1,
        EffectiveFormat::Msg => 2,
        EffectiveFormat::Html => 3,
        EffectiveFormat::PlainText => 4,
        EffectiveFormat::Pdf => 5,
        EffectiveFormat::Image => 6,
        EffectiveFormat::Unsupported => 7,
    }
}

/// The fingerprint of a key: the FNV-1a hash of its bytes, continued over
/// the output-affecting configuration encoded as tag bytes.
pub open spec fn spec_fingerprint(k: CacheKeyV) -> u64 {
    let h0 = spec_fnv1a(k.bytes, FNV_OFFSET);
    let tags = seq![
        spec_format_tag(k.format),
        (if k.cfb_mode == CfbMode::Lenient { 1u8 } else { 0u8 }),
        (if k.html_sanitize { 1u8 } else { 0u8 }),
        (match k.max_content_length { Some(_) => 1u8, None => 0u8 }),
    ];
    spec_fnv1a(tags, h0)
}

/// Computes a key's fingerprint.
pub fn fingerprint(k: &CacheKey) -> (r: u64)
    ensures
        r == spec_fingerprint(k@),
{
    let h0 = fnv1a(k.bytes.as_slice(), FNV_OFFSET);
    let t0: u8 = match k.format {
        EffectiveFormat::Email => 1,
        EffectiveFormat::Msg => 2,
        EffectiveFormat::Html => 3,
        EffectiveFormat::PlainText => 4,
        EffectiveFormat::Pdf => 5,
        EffectiveFormat::Image => 6,
        EffectiveFormat::Unsupported => 7,
    };
    let t1: u8 = match k.cfb_mode {
        CfbMode::Lenient => 1,
        CfbMode::Strict => 0,
    };
    let t2: u8 = if k.html_sanitize {
        1
    } else {
        0
    };
    let t3: u8 = match k.max_content_length {
        Some(_) => 1,
        None => 0,
    };
    let tags: [u8; 4] = [t0, t1, t2, t3];
    let ghost tag_seq = seq![
        spec_format_tag(k@.format),
        (if k@.cfb_mode == CfbMode::Lenient { 1u8 } else { 0u8 }),
        (if k@.html_sanitize { 1u8 } else { 0u8 }),
        (match k@.max_content_length { Some(_) => 1u8, None => 0u8 }),
    ];
    assert(tags@ =~= tag_seq);
    fnv1a(tags.as_slice(), h0)
}

/// Compares two keys for equality.
pub fn key_eq(a: &CacheKey, b: &CacheKey) -> (r: bool)
    ensures
        r == (a@ == b@),
{
    let same = a.format == b.format && a.cfb_mode == b.cfb_mode && a.html_sanitize
        == b.html_sanitize && match (&a.max_content_length, &b.max_content_length) {
        (Some(x), Some(y)) => *x == *y,
        (None, None) => true,
        _ => false,
    };
    if !same {
        return false;
    }
    bytes_eq(a.bytes.as_slice(), b.bytes.as_slice())
}

} // verus!

verus! {

/// One memo entry: a pending marker while the owner computes, or the
/// finished value.
pub struct CacheEntry<V> {
    /// Fingerprint of `key`, kept for fast comparison.
    pub fp: u64,
    /// The exact key, which confirms every fingerprint match.
    pub key: CacheKey,
    /// `None` while the computation is in flight.
    pub value: Option<V>,
}

/// What a request learns from the cache when it announces itself.
#[derive(Clone, Copy, Debug, PartialEq, Eq, Structural)]
pub enum BeginOutcome {
    /// No one holds this key: the caller must compute, then report back.
    Owner,
    /// The same key is being computed right now: wait for that result.
    Waiter,
    /// The result is already here.
    Hit,
}

/// The index of the first entry with the given key, or the length.
pub open spec fn spec_find_key<V>(es: Seq<CacheEntry<V>>, k: CacheKeyV) -> int
    decreases es.len(),
{
    if es.len() == 0 {
        0
    } else if es[0].key@ == k {
        0
    } else {
        1 + spec_find_key(es.drop_first(), k)
    }
}

/// Where `spec_find_key` points: at the first entry with the key, or past
/// the end when no entry has it.
pub proof fn lemma_find_key<V>(es: Seq<CacheEntry<V>>, k: CacheKeyV)
    ensures
        0 <= spec_find_key(es, k) <= es.len(),
        spec_find_key(es, k) < es.len() ==> es[spec_find_key(es, k)].key@ == k,
        forall|i: int| 0 <= i < spec_find_key(es, k) ==> es[i].key@ != k,
    decreases es.len(),
{
    if es.len() > 0 && es[0].key@ != k {
        lemma_find_key(es.drop_first(), k);
        assert forall|i: int| 0 <= i < spec_find_key(es, k) implies es[i].key@ != k by {
            if i > 0 {
                assert(es.drop_first()[i - 1] == es[i]);
            }
        }
    }
}

/// A prefix with no match and a match at its end pin the find result.
pub proof fn lemma_find_key_at<V>(es: Seq<CacheEntry<V>>, k: CacheKeyV, i: int)
    requires
        0 <= i < es.len(),
        es[i].key@ == k,
        forall|j: int| 0 <= j < i ==> es[j].key@ != k,
    ensures
        spec_find_key(es, k) == i,
    decreases es.len(),
{
    if i > 0 {
        assert forall|j: int| 0 <= j < i - 1 implies es.drop_first()[j].key@ != k by {
            assert(es.drop_first()[j] == es[j + 1]);
        }
        assert(es.drop_first()[i - 1] == es[i]);
        lemma_find_key_at(es.drop_first(), k, i - 1);
    }
}

/// A key's absence everywhere pins the find result past the end.
pub proof fn lemma_find_key_absent<V>(es: Seq<CacheEntry<V>>, k: CacheKeyV)
    requires
        forall|j: int| 0 <= j < es.len() ==> es[j].key@ != k,
    ensures
        spec_find_key(es, k) == es.len(),
    decreases es.len(),
{
    if es.len() > 0 {
        assert forall|j: int| 0 <= j < es.drop_first().len() implies es.drop_first()[j].key@
            != k by {
            assert(es.drop_first()[j] == es[j + 1]);
        }
        lemma_find_key_absent(es.drop_first(), k);
    }
}

/// The state the cache holds for a key: `None` when the key is unknown,
/// `Some(None)` while in flight, `Some(Some(v))` when finished.
pub open spec fn spec_get<V>(es: Seq<CacheEntry<V>>, k: CacheKeyV) -> Option<Option<V>> {
    let i = spec_find_key(es, k);
    if i < es.len() {
        Some(es[i].value)
    } else {
        None
    }
}

/// What announcing a key yields.
pub open spec fn spec_begin_outcome<V>(es: Seq<CacheEntry<V>>, k: CacheKeyV) -> BeginOutcome {
    match spec_get(es, k) {
        None => BeginOutcome::Owner,
        Some(None) => BeginOutcome::Waiter,
        Some(Some(_)) => BeginOutcome::Hit,
    }
}

/// The fingerprint-keyed memo table.
pub struct Cache<V> {
    /// The entries, in insertion order.
    pub entries: Vec<CacheEntry<V>>,
}

impl<V> Cache<V> {
    /// Every fingerprint is its key's, and no key appears twice.
    pub open spec fn wf(self) -> bool {
        &&& forall|i: int|
            0 <= i < self.entries@.len() ==> (#[trigger] self.entries@[i]).fp == spec_fingerprint(
                self.entries@[i].key@,
            )
        &&& forall|i: int, j: int|
            0 <= i < j < self.entries@.len() ==> (#[trigger] self.entries@[i]).key@ != (
            #[trigger] self.entries@[j]).key@
    }

    /// An empty cache.
    pub fn new() -> (r: Self)
        ensures
            r.wf(),
            r.entries@.len() == 0,
    {
        Cache { entries: Vec::new() }
    }

    /// Finds the index of the entry holding `key`, if any.
    fn find(&self, key: &CacheKey) -> (r: Option<usize>)
        requires
            self.wf(),
        ensures
            r matches Some(i) ==> spec_find_key(self.entries@, key@) == i && (i as int)
                < self.entries@.len(),
            r is None ==> spec_find_key(self.entries@, key@) == self.entries@.len(),
    {
        let fp = fingerprint(key);
        let n = self.entries.len();
        let mut i: usize = 0;
        while i < n
            invariant
                self.wf(),
                fp == spec_fingerprint(key@),
                i <= n == self.entries@.len(),
                forall|j: int| 0 <= j < i ==> (#[trigger] self.entries@[j]).key@ != key@,
            decreases n - i,
        {
            if self.entries[i].fp == fp {
                if key_eq(&self.entries[i].key, key) {
                    proof {
                        lemma_find_key_at(self.entries@, key@, i as int);
                    }
                    return Some(i);
                }
            } else {
                proof {
                    assert(self.entries@[i as int].fp == spec_fingerprint(
                        self.entries@[i as int].key@,
                    ));
                }
            }
            i = i + 1;
        }
        proof {
            lemma_find_key_absent(self.entries@, key@);
        }
        None
    }

    /// Announces a key.  The first request for an unknown key becomes the
    /// owner and an in-flight entry is recorded under it; requests while
    /// that entry is pending are told to wait; a finished entry is a hit.
    pub fn begin(&mut self, key: CacheKey) -> (r: BeginOutcome)
        requires
            old(self).wf(),
        ensures
            final(self).wf(),
            r == spec_begin_outcome(old(self).entries@, key@),
            r == BeginOutcome::Owner ==> final(self).entries@ == old(self).entries@.push(
                CacheEntry { fp: spec_fingerprint(key@), key, value: None },
            ),
            r != BeginOutcome::Owner ==> *final(self) == *old(self),
    {
        match self.find(&key) {
            Some(i) => {
                if self.entries[i].value.is_some() {
                    BeginOutcome::Hit
                } else {
                    BeginOutcome::Waiter
                }
            },
            None => {
                let fp = fingerprint(&key);
                let ghost pre = self.entries@;
                proof {
                    lemma_find_key(pre, key@);
                }
                self.entries.push(CacheEntry { fp, key, value: None });
                proof {
                    assert forall|i: int, j: int|
                        0 <= i < j < self.entries@.len() implies (
                    #[trigger] self.entries@[i]).key@ != (#[trigger] self.entries@[j]).key@ by {
                        if j < pre.len() {
                        }
                    }
                }
                BeginOutcome::Owner
            },
        }
    }

    /// Reads the finished value held for a key, if one is finished.
    pub fn get_ready(&self, key: &CacheKey) -> (r: Option<&V>)
        requires
            self.wf(),
        ensures
            r matches Some(v) ==> spec_get(self.entries@, key@) == Some(Some(*v)),
            r is None ==> spec_begin_outcome(self.entries@, key@) != BeginOutcome::Hit,
    {
        match self.find(key) {
            Some(i) => match &self.entries[i].value {
                Some(v) => Some(v),
                None => None,
            },
            None => None,
        }
    }

    /// Records the owner's finished value: the pending entry for the key
    /// becomes a finished one.
    pub fn complete(&mut self, key: &CacheKey, v: V)
        requires
            old(self).wf(),
            spec_get(old(self).entries@, key@) == Some(Option::<V>::None),
        ensures
            final(self).wf(),
            final(self).entries@ == old(self).entries@.remove(
                spec_find_key(old(self).entries@, key@),
            ).push(
                CacheEntry {
                    fp: spec_fingerprint(key@),
                    key: old(self).entries@[spec_find_key(old(self).entries@, key@)].key,
                    value: Some(v),
                },
            ),
            spec_get(final(self).entries@, key@) == Some(Some(v)),
    {
        let ghost pre = self.entries@;
        proof {
            lemma_find_key(pre, key@);
        }
        let i = match self.find(key) {
            Some(i) => i,
            None => {
                proof {
                    assert(false);
                }
                0
            },
        };
        let e = self.entries.remove(i);
        let ghost mid = self.entries@;
        let ne = CacheEntry { fp: e.fp, key: e.key, value: Some(v) };
        self.entries.push(ne);
        proof {
            assert forall|a: int|
                0 <= a < mid.len() implies (#[trigger] mid[a]).key@ != key@ by {
                lemma_find_key(pre, key@);
                if a < i {
                } else {
                    assert(mid[a] == pre[a + 1]);
                }
            }
            lemma_find_key_at(self.entries@, key@, mid.len() as int);
            assert forall|a: int, b: int|
                0 <= a < b < self.entries@.len() implies (#[trigger] self.entries@[a]).key@ != (
            #[trigger] self.entries@[b]).key@ by {
                if b < self.entries@.len() - 1 {
                    let pa = if a < i { a } else { a + 1 };
                    let pb = if b < i { b } else { b + 1 };
                    assert(self.entries@[a] == pre[pa]);
                    assert(self.entries@[b] == pre[pb]);
                } else {
                    assert(self.entries@[b].key@ == key@);
                }
            }
        }
    }

    /// Drops whatever is held for a key, so that a later identical request
    /// computes again; failures are never memoized.
    pub fn fail(&mut self, key: &CacheKey)
        requires
            old(self).wf(),
        ensures
            final(self).wf(),
            spec_get(final(self).entries@, key@) is None,
            spec_find_key(old(self).entries@, key@) < old(self).entries@.len() ==> final(self).entries@
                == old(self).entries@.remove(spec_find_key(old(self).entries@, key@)),
            spec_find_key(old(self).entries@, key@) == old(self).entries@.len() ==> *final(self)
                == *old(self),
    {
        let ghost pre = self.entries@;
        match self.find(key) {
            Some(i) => {
                let _ = self.entries.remove(i);
                proof {
                    lemma_find_key(pre, key@);
                    assert forall|a: int|
                        0 <= a < self.entries@.len() implies (#[trigger] self.entries@[a]).key@
                        != key@ by {
                        if a < i {
                        } else {
                            assert(self.entries@[a] == pre[a + 1]);
                        }
                    }
                    lemma_find_key_absent(self.entries@, key@);
                    assert forall|a: int, b: int|
                        0 <= a < b < self.entries@.len() implies (
                    #[trigger] self.entries@[a]).key@ != (#[trigger] self.entries@[b]).key@ by {
                        let pa = if a < i { a } else { a + 1 };
                        let pb = if b < i { b } else { b + 1 };
                        assert(self.entries@[a] == pre[pa]);
                        assert(self.entries@[b] == pre[pb]);
                    }
                }
            },
            None => {
                proof {
                    lemma_find_key(pre, key@);
                }
            },
        }
    }
}

/// Single flight: with no entry for a key, the first request is told to
/// compute (it becomes the owner, leaving an in-flight entry behind), and
/// every request that arrives while that entry is in flight is told to
/// wait — so one underlying computation runs per key, however many
/// requests share it.
pub proof fn lemma_single_flight<V>(es: Seq<CacheEntry<V>>, k: CacheKeyV, fp: u64)
    requires
        forall|j: int| 0 <= j < es.len() ==> (#[trigger] es[j]).key@ != k,
    ensures
        spec_begin_outcome(es, k) == BeginOutcome::Owner,
        forall|e: CacheEntry<V>|
            e.key@ == k && e.value is None ==> spec_begin_outcome(
                es.push(e),
                k,
            ) == BeginOutcome::Waiter,
{
    lemma_find_key_absent(es, k);
    assert forall|e: CacheEntry<V>|
        e.key@ == k && e.value is None implies spec_begin_outcome(
        es.push(e),
        k,
    ) == BeginOutcome::Waiter by {
        assert forall|j: int| 0 <= j < es.len() implies (#[trigger] es.push(e)[j]).key@ != k by {
            assert(es.push(e)[j] == es[j]);
        }
        lemma_find_key_at(es.push(e), k, es.len() as int);
    }
}

} // verus!
