//! The response cache: the fingerprint of a request, whether a request may
//! be answered from the cache, and the store of answers with their deadlines.
//!
//! Time is a count of milliseconds on a monotonic clock, handed in by the
//! caller.

use base64::Engine;
use sha2::Digest;
use vstd::prelude::*;
use vstd::utf8::encode_utf8;
use crate::canonical::{lemma_strip, lemma_text_tells_apart};
use crate::error::GatewayApiError;
use crate::json::{
    field_views, json_text, lemma_field_views, lookup, Json, JsonNumber, JsonView,
};
use crate::metrics::{wrapped_sum, Metrics};
use crate::text::{joined, str_eq};

verus! {

/// The SHA-256 digest of a run of bytes.
pub uninterp spec fn sha256(data: Seq<u8>) -> Seq<u8>;

/// The base64 text of a run of bytes, in the standard alphabet with padding.
pub uninterp spec fn base64_standard(data: Seq<u8>) -> Seq<char>;

/// `Sha256::digest`: the SHA-256 digest of `data`, which is 32 bytes long.
#[verifier::external_body]
fn sha256_digest(data: &[u8]) -> (digest: Vec<u8>)
    ensures
        digest@ == sha256(data@),
        digest@.len() == 32,
{
    sha2::Sha256::digest(data).to_vec()
}

/// `Engine::encode` of the engine `STANDARD`: the base64 text of `data`. The
/// length of the text, four characters for every three bytes begun, has to
/// fit.
#[verifier::external_body]
fn base64_encode(data: &[u8]) -> (text: String)
    requires
        data@.len() / 3 * 4 + 4 <= usize::MAX,
    ensures
        text@ == base64_standard(data@),
{
    base64::engine::general_purpose::STANDARD.encode(data)
}

/// The names of the fields that decide what a provider answers, in the order
/// in which the fingerprint takes them.
pub open spec fn allow_list() -> Seq<Seq<char>> {
    seq![
        "frequency_penalty"@,
        "max_tokens"@,
        "messages"@,
        "model"@,
        "presence_penalty"@,
        "stop"@,
        "temperature"@,
        "top_p"@,
    ]
}

/// The fields of `body` with the names of `names`, in the order of `names`.
pub open spec fn kept_fields(body: JsonView, names: Seq<Seq<char>>) -> Seq<(Seq<char>, JsonView)>
    decreases names.len(),
{
    if names.len() == 0 {
        Seq::empty()
    } else {
        let rest = kept_fields(body, names.drop_last());
        match body.get(names.last()) {
            Some(value) => rest.push((names.last(), value)),
            None => rest,
        }
    }
}

/// The normalized body: of an object, the fields on the allow-list, in the
/// order of the list; any other value as it is.
pub open spec fn normalized(body: JsonView) -> JsonView {
    match body {
        JsonView::Object(_) => JsonView::Object(kept_fields(body, allow_list())),
        other => other,
    }
}

/// The text that the fingerprint digests: the path, a colon, and the
/// canonical text of the normalized body.
pub open spec fn key_text(body: JsonView, path: Seq<char>) -> Seq<char> {
    path + ":"@ + json_text(normalized(body))
}

/// The fingerprint of a request: the base64 text of the SHA-256 digest of
/// the UTF-8 bytes of `key_text`.
pub open spec fn cache_key(body: JsonView, path: Seq<char>) -> Seq<char> {
    base64_standard(sha256(encode_utf8(key_text(body, path))))
}

/// The fingerprint depends on the allow-listed fields alone: two bodies that
/// are objects and agree on every allow-listed field have the same
/// fingerprint, whatever other fields they hold and in whatever order.
pub proof fn lemma_key_ignores_other_fields(a: JsonView, b: JsonView, path: Seq<char>)
    requires
        a is Object,
        b is Object,
        forall|i: int| 0 <= i < allow_list().len() ==> a.get(allow_list()[i]) == b.get(allow_list()[i]),
    ensures
        normalized(a) == normalized(b),
        cache_key(a, path) == cache_key(b, path),
{
    lemma_kept_fields_agree(a, b, allow_list());
}

/// Bodies that agree on the fields of `names` keep the same fields.
proof fn lemma_kept_fields_agree(a: JsonView, b: JsonView, names: Seq<Seq<char>>)
    requires
        forall|i: int| 0 <= i < names.len() ==> a.get(names[i]) == b.get(names[i]),
    ensures
        kept_fields(a, names) == kept_fields(b, names),
    decreases names.len(),
{
    if names.len() > 0 {
        assert forall|i: int| 0 <= i < names.drop_last().len() implies a.get(names.drop_last()[i])
            == b.get(names.drop_last()[i]) by {
            assert(names.drop_last()[i] == names[i]);
        }
        lemma_kept_fields_agree(a, b, names.drop_last());
        assert(a.get(names.last()) == b.get(names.last())) by {
            assert(names.last() == names[names.len() - 1]);
        }
    }
}

/// Looking a key up behind one more field finds what was found before, or
/// the new field where nothing was and it has the key.
proof fn lemma_lookup_push(
    fields: Seq<(Seq<char>, JsonView)>,
    name: Seq<char>,
    value: JsonView,
    key: Seq<char>,
)
    ensures
        lookup(fields.push((name, value)), key) == match lookup(fields, key) {
            Some(found) => Some(found),
            None => if name == key {
                Some(value)
            } else {
                None
            },
        },
    decreases fields.len(),
{
    let longer = fields.push((name, value));
    assert(longer.len() == fields.len() + 1);
    if fields.len() == 0 {
        assert(longer[0] == (name, value));
        assert(longer.drop_first() =~= Seq::<(Seq<char>, JsonView)>::empty());
        assert(lookup(longer.drop_first(), key) is None);
        assert(lookup(fields, key) is None);
    } else {
        assert(longer[0] == fields[0]);
        assert(longer.drop_first() =~= fields.drop_first().push((name, value)));
        lemma_lookup_push(fields.drop_first(), name, value, key);
        if fields[0].0 == key {
            assert(lookup(longer, key) == Some(fields[0].1));
            assert(lookup(fields, key) == Some(fields[0].1));
        } else {
            assert(lookup(longer, key) == lookup(longer.drop_first(), key));
            assert(lookup(fields, key) == lookup(fields.drop_first(), key));
        }
    }
}

/// The names of `names` are pairwise different.
pub open spec fn distinct_names(names: Seq<Seq<char>>) -> bool {
    forall|i: int, j: int| 0 <= i < j < names.len() ==> names[i] != names[j]
}

/// Among the fields kept for distinct names, a name of the list finds what
/// the body holds under it.
proof fn lemma_kept_fields_lookup(body: JsonView, names: Seq<Seq<char>>, at: int)
    requires
        distinct_names(names),
        0 <= at < names.len(),
    ensures
        lookup(kept_fields(body, names), names[at]) == body.get(names[at]),
    decreases names.len(),
{
    let rest = kept_fields(body, names.drop_last());
    let last = names.last();
    assert(last == names[names.len() - 1]);
    assert forall|i: int, j: int| 0 <= i < j < names.drop_last().len() implies names.drop_last()[i]
        != names.drop_last()[j] by {
        assert(names.drop_last()[i] == names[i]);
        assert(names.drop_last()[j] == names[j]);
    }
    if at == names.len() - 1 {
        lemma_kept_fields_miss(body, names.drop_last(), last);
        match body.get(last) {
            Some(value) => {
                lemma_lookup_push(rest, last, value, last);
            },
            None => {},
        }
    } else {
        assert(names.drop_last()[at] == names[at]);
        lemma_kept_fields_lookup(body, names.drop_last(), at);
        match body.get(last) {
            Some(value) => {
                lemma_lookup_push(rest, last, value, names[at]);
            },
            None => {},
        }
    }
}

/// Among the fields kept for `names`, a name that is not of the list finds
/// nothing.
proof fn lemma_kept_fields_miss(body: JsonView, names: Seq<Seq<char>>, key: Seq<char>)
    requires
        forall|i: int| 0 <= i < names.len() ==> names[i] != key,
    ensures
        lookup(kept_fields(body, names), key) is None,
    decreases names.len(),
{
    if names.len() > 0 {
        assert forall|i: int| 0 <= i < names.drop_last().len() implies names.drop_last()[i]
            != key by {
            assert(names.drop_last()[i] == names[i]);
        }
        lemma_kept_fields_miss(body, names.drop_last(), key);
        assert(names.last() == names[names.len() - 1]);
        match body.get(names.last()) {
            Some(value) => {
                lemma_lookup_push(
                    kept_fields(body, names.drop_last()),
                    names.last(),
                    value,
                    key,
                );
            },
            None => {},
        }
    }
}

/// The names on the allow-list are pairwise different.
proof fn lemma_allow_list_distinct()
    ensures
        distinct_names(allow_list()),
{
    reveal_strlit("frequency_penalty");
    reveal_strlit("max_tokens");
    reveal_strlit("messages");
    reveal_strlit("model");
    reveal_strlit("presence_penalty");
    reveal_strlit("stop");
    reveal_strlit("temperature");
    reveal_strlit("top_p");
    let names = allow_list();
    assert(names[0].len() == 17);
    assert(names[1].len() == 10);
    assert(names[2].len() == 8);
    assert(names[3].len() == 5);
    assert(names[4].len() == 16);
    assert(names[5].len() == 4);
    assert(names[6].len() == 11);
    assert(names[7].len() == 5);
    assert(names[3][0] == 'm');
    assert(names[7][0] == 't');
}

/// The normalized body tells requests apart: two bodies that are objects and
/// differ in an allow-listed field have different normalized bodies.
pub proof fn lemma_normalized_tells_apart(a: JsonView, b: JsonView, at: int)
    requires
        a is Object,
        b is Object,
        0 <= at < allow_list().len(),
        a.get(allow_list()[at]) != b.get(allow_list()[at]),
    ensures
        normalized(a) != normalized(b),
{
    lemma_allow_list_distinct();
    lemma_kept_fields_lookup(a, allow_list(), at);
    lemma_kept_fields_lookup(b, allow_list(), at);
}

/// The text that is digested tells requests apart: two bodies that are
/// objects and differ in an allow-listed field have different texts for a
/// path, and the UTF-8 bytes of the texts differ too.
pub proof fn lemma_key_text_tells_apart(a: JsonView, b: JsonView, path: Seq<char>, at: int)
    requires
        a is Object,
        b is Object,
        0 <= at < allow_list().len(),
        a.get(allow_list()[at]) != b.get(allow_list()[at]),
    ensures
        key_text(a, path) != key_text(b, path),
        encode_utf8(key_text(a, path)) != encode_utf8(key_text(b, path)),
{
    lemma_normalized_tells_apart(a, b, at);
    let front = path + ":"@;
    let ta = json_text(normalized(a));
    let tb = json_text(normalized(b));
    if key_text(a, path) == key_text(b, path) {
        lemma_strip(front, ta, tb);
        lemma_text_tells_apart(normalized(a), normalized(b));
    }
    vstd::utf8::encode_utf8_decode_utf8(key_text(a, path));
    vstd::utf8::encode_utf8_decode_utf8(key_text(b, path));
}

/// Whether the fingerprint tells the texts `x` and `y` apart: they are the
/// same, or the base64 texts of their SHA-256 digests differ. It fails only
/// of two texts whose digests collide.
pub open spec fn digests_apart(x: Seq<u8>, y: Seq<u8>) -> bool {
    x != y ==> base64_standard(sha256(x)) != base64_standard(sha256(y))
}

/// A change to an allow-listed field changes the fingerprint: two bodies
/// that are objects and differ in an allow-listed field have different
/// fingerprints for a path, unless the digests of their two texts collide.
pub proof fn lemma_key_tells_apart(a: JsonView, b: JsonView, path: Seq<char>, at: int)
    requires
        a is Object,
        b is Object,
        0 <= at < allow_list().len(),
        a.get(allow_list()[at]) != b.get(allow_list()[at]),
        digests_apart(encode_utf8(key_text(a, path)), encode_utf8(key_text(b, path))),
    ensures
        cache_key(a, path) != cache_key(b, path),
{
    lemma_key_text_tells_apart(a, b, path, at);
}

/// A request that is the same as one whose answer was stored is answered
/// from the cache: where two bodies have the same normalized body, they have
/// the same fingerprint for a path, and the entry stored under the
/// fingerprint of the one is found under the fingerprint of the other.
pub proof fn lemma_same_request_finds_entry(
    cache: ResponseCache,
    a: JsonView,
    b: JsonView,
    path: Seq<char>,
    stored: EntryModel,
)
    requires
        normalized(a) == normalized(b),
        cache.entry(cache_key(a, path)) == Some(stored),
    ensures
        cache_key(a, path) == cache_key(b, path),
        cache.entry(cache_key(b, path)) == Some(stored),
{
}

/// A stored answer is found again within its time to live: a lookup of the
/// key, at any time before the time to live has passed since the answer was
/// stored, answers with the stored response. The last instant of the clock
/// is left out: a deadline beyond it is held as that instant.
pub proof fn lemma_stored_answer_is_found(
    before: ResponseCache,
    after: ResponseCache,
    key: Seq<char>,
    response: CachedResponseView,
    now: u64,
    later: u64,
)
    requires
        after.stores(before, key, response, now),
        later < now + before.ttl() * 1000,
        later < u64::MAX,
    ensures
        after.answer(key, later) == Some(response),
{
}

/// The second of two requests with the same normalized body and path is
/// answered from the cache with what was stored for the first, and counted
/// as one hit and no miss, where it comes before the time to live has passed.
/// The last instant of the clock and the last value of the counter are left
/// out: the deadline stops at the one, and the counter wraps around at the
/// other.
pub proof fn lemma_second_request_is_a_hit(
    before: ResponseCache,
    after: ResponseCache,
    first: JsonView,
    second: JsonView,
    path: Seq<char>,
    response: CachedResponseView,
    now: u64,
    later: u64,
    metrics: Metrics,
)
    requires
        normalized(first) == normalized(second),
        after.stores(before, cache_key(first, path), response, now),
        later < now + before.ttl() * 1000,
        later < u64::MAX,
        metrics.cache_hit_count < u64::MAX,
    ensures
        after.answer(cache_key(second, path), later) == Some(response),
        metrics.with_lookup(true).cache_hit_count == metrics.cache_hit_count + 1,
        metrics.with_lookup(true).cache_miss_count == metrics.cache_miss_count,
{
}

/// A cache that holds no more entries than its capacity, which is at least
/// one, still does after a response was stored.
pub proof fn lemma_store_keeps_capacity(
    before: ResponseCache,
    after: ResponseCache,
    key: Seq<char>,
    response: CachedResponseView,
    now: u64,
)
    requires
        after.stores(before, key, response, now),
        before.capacity() >= 1,
        before.len() <= before.capacity(),
    ensures
        after.len() <= before.capacity(),
{
}

/// Whether a number is at most one hundredth.
pub open spec fn at_most_a_hundredth(n: JsonNumber) -> bool {
    !(JsonNumber { negative: false, mantissa: 1, exponent: -2i32 }).less_than(n)
}

/// Whether a number is at least 0.999.
pub open spec fn at_least_999_thousandths(n: JsonNumber) -> bool {
    !n.less_than(JsonNumber { negative: false, mantissa: 999, exponent: -3i32 })
}

/// Whether the answer to a request may be cached: the request does not ask
/// for a stream, does not switch the cache off, and is in effect
/// deterministic: a `temperature` that is a number is at most 0.01, and a
/// `top_p` that is a number is at least 0.999.
pub open spec fn cacheable(body: JsonView) -> bool {
    &&& !body.field_is_bool("stream"@, true)
    &&& !body.field_is_bool("cache"@, false)
    &&& (body.get("temperature"@) matches Some(JsonView::Number(t)) ==> at_most_a_hundredth(t))
    &&& (body.get("top_p"@) matches Some(JsonView::Number(p)) ==> at_least_999_thousandths(p))
}

/// A response as the cache holds it.
#[derive(Debug)]
pub struct CachedResponse {
    pub status: u16,
    pub headers: Vec<(String, Vec<u8>)>,
    pub body: Vec<u8>,
}

pub struct CachedResponseView {
    pub status: u16,
    pub headers: Seq<(Seq<char>, Seq<u8>)>,
    pub body: Seq<u8>,
}

impl View for CachedResponse {
    type V = CachedResponseView;

    open spec fn view(&self) -> CachedResponseView {
        CachedResponseView {
            status: self.status,
            headers: self.headers@.map_values(|h: (String, Vec<u8>)| (h.0@, h.1@)),
            body: self.body@,
        }
    }
}

/// A copy of a run of bytes.
fn clone_bytes(bytes: &Vec<u8>) -> (copy: Vec<u8>)
    ensures
        copy@ == bytes@,
{
    let mut out: Vec<u8> = Vec::new();
    let mut i: usize = 0;
    while i < bytes.len()
        invariant
            i <= bytes.len(),
            out@ == bytes@.take(i as int),
        decreases bytes.len() - i,
    {
        out.push(bytes[i]);
        proof {
            assert(bytes@.take(i + 1) =~= bytes@.take(i as int).push(bytes@[i as int]));
        }
        i += 1;
    }
    proof {
        assert(bytes@.take(bytes.len() as int) =~= bytes@);
    }
    out
}

impl Clone for CachedResponse {
    fn clone(&self) -> (copy: CachedResponse)
        ensures
            copy@ == self@,
    {
        let mut headers: Vec<(String, Vec<u8>)> = Vec::new();
        let mut i: usize = 0;
        while i < self.headers.len()
            invariant
                i <= self.headers.len(),
                headers@.len() == i,
                forall|k: int|
                    0 <= k < i ==> (#[trigger] headers@[k]).0@ == self.headers@[k].0@
                        && headers@[k].1@ == self.headers@[k].1@,
            decreases self.headers.len() - i,
        {
            headers.push((self.headers[i].0.clone(), clone_bytes(&self.headers[i].1)));
            i += 1;
        }
        let copy = CachedResponse { status: self.status, headers, body: clone_bytes(&self.body) };
        proof {
            assert(copy@.headers =~= self@.headers);
        }
        copy
    }
}

/// Whether a status is one of success: from 200 to 299.
pub open spec fn is_success(status: u16) -> bool {
    200 <= status < 300
}

/// One entry of the cache.
#[derive(Debug)]
pub struct CacheEntry {
    key: String,
    response: CachedResponse,
    expires_at: u64,
}

/// What an entry holds.
pub struct EntryModel {
    pub key: Seq<char>,
    pub response: CachedResponseView,
    pub expires_at: u64,
}

impl View for CacheEntry {
    type V = EntryModel;

    closed spec fn view(&self) -> EntryModel {
        EntryModel { key: self.key@, response: self.response@, expires_at: self.expires_at }
    }
}

/// The last entry of `entries` under `key`.
pub open spec fn entry_of(entries: Seq<CacheEntry>, key: Seq<char>) -> Option<EntryModel>
    decreases entries.len(),
{
    if entries.len() == 0 {
        None
    } else if entries.last()@.key == key {
        Some(entries.last()@)
    } else {
        entry_of(entries.drop_last(), key)
    }
}

/// No two entries have the same key.
pub open spec fn distinct_keys(entries: Seq<CacheEntry>) -> bool {
    forall|i: int, j: int|
        0 <= i < j < entries.len() ==> (#[trigger] entries[i])@.key != (#[trigger] entries[j])@.key
}

/// Where no entry has the key, none is found; and an entry that is found is
/// one of the entries and has the key.
proof fn lemma_entry_of(entries: Seq<CacheEntry>, key: Seq<char>)
    ensures
        (forall|i: int| 0 <= i < entries.len() ==> entries[i]@.key != key) ==> entry_of(
            entries,
            key,
        ) is None,
        entry_of(entries, key) matches Some(e) ==> e.key == key && exists|i: int|
            0 <= i < entries.len() && #[trigger] entries[i]@ == e,
    decreases entries.len(),
{
    if entries.len() > 0 {
        lemma_entry_of(entries.drop_last(), key);
        if entries.last()@.key == key {
            assert(entries[entries.len() - 1]@ == entries.last()@);
        } else {
            if entry_of(entries, key) is Some {
                let e = entry_of(entries, key)->Some_0;
                let i = choose|i: int|
                    0 <= i < entries.drop_last().len() && #[trigger] entries.drop_last()[i]@ == e;
                assert(entries[i]@ == e);
            }
            assert forall|i: int| 0 <= i < entries.drop_last().len() implies
                entries.drop_last()[i] == entries[i] by {}
        }
    }
}

/// With distinct keys, the entry found under the key of the entry at `at` is
/// that entry.
proof fn lemma_entry_found(entries: Seq<CacheEntry>, at: int)
    requires
        distinct_keys(entries),
        0 <= at < entries.len(),
    ensures
        entry_of(entries, entries[at]@.key) == Some(entries[at]@),
    decreases entries.len(),
{
    if at == entries.len() - 1 {
    } else {
        assert(entries.last() == entries[entries.len() - 1]);
        assert(entries.drop_last()[at] == entries[at]);
        assert forall|i: int, j: int| 0 <= i < j < entries.drop_last().len() implies (
        #[trigger] entries.drop_last()[i])@.key != (#[trigger] entries.drop_last()[j])@.key by {
            assert(entries.drop_last()[i] == entries[i]);
            assert(entries.drop_last()[j] == entries[j]);
        }
        lemma_entry_found(entries.drop_last(), at);
    }
}

/// Taking the entry at `at` out of entries with distinct keys leaves the keys
/// distinct, takes its key out, and leaves every other key as it was.
proof fn lemma_entry_removed(entries: Seq<CacheEntry>, at: int)
    requires
        distinct_keys(entries),
        0 <= at < entries.len(),
    ensures
        distinct_keys(entries.remove(at)),
        forall|key: Seq<char>| #[trigger]
            entry_of(entries.remove(at), key) == if key == entries[at]@.key {
                None
            } else {
                entry_of(entries, key)
            },
    decreases entries.len(),
{
    let after = entries.remove(at);
    assert forall|i: int, j: int| 0 <= i < j < after.len() implies (#[trigger] after[i])@.key != (
    #[trigger] after[j])@.key by {
        let oi = if i < at {
            i
        } else {
            i + 1
        };
        let oj = if j < at {
            j
        } else {
            j + 1
        };
        assert(after[i] == entries[oi]);
        assert(after[j] == entries[oj]);
    }
    assert forall|key: Seq<char>| #[trigger]
        entry_of(after, key) == if key == entries[at]@.key {
            None
        } else {
            entry_of(entries, key)
        } by {
        if at == entries.len() - 1 {
            assert(after =~= entries.drop_last());
            if key == entries[at]@.key {
                lemma_entry_of(after, key);
                assert forall|i: int| 0 <= i < after.len() implies after[i]@.key != key by {
                    assert(after[i] == entries[i]);
                }
            }
        } else {
            let last = entries.last();
            assert(last == entries[entries.len() - 1]);
            assert(after.last() == last);
            assert(after.drop_last() =~= entries.drop_last().remove(at));
            assert(entries.drop_last()[at] == entries[at]);
            assert forall|i: int, j: int| 0 <= i < j < entries.drop_last().len() implies (
            #[trigger] entries.drop_last()[i])@.key != (#[trigger] entries.drop_last()[j])@.key by {
                assert(entries.drop_last()[i] == entries[i]);
                assert(entries.drop_last()[j] == entries[j]);
            }
            lemma_entry_removed(entries.drop_last(), at);
            assert(entry_of(entries.drop_last().remove(at), key) == if key == entries[at]@.key {
                None
            } else {
                entry_of(entries.drop_last(), key)
            });
        }
    }
}

/// The number of entries whose deadline lies after `now`.
pub open spec fn live_count(entries: Seq<CacheEntry>, now: u64) -> nat
    decreases entries.len(),
{
    if entries.len() == 0 {
        0
    } else {
        live_count(entries.drop_last(), now) + if entries.last()@.expires_at > now {
            1nat
        } else {
            0nat
        }
    }
}

/// The cache of responses, by fingerprint.
#[derive(Debug)]
pub struct ResponseCache {
    entries: Vec<CacheEntry>,
    ttl_seconds: u64,
    max_size: usize,
}

impl ResponseCache {
    #[verifier::type_invariant]
    spec fn well_formed(self) -> bool {
        distinct_keys(self.entries@)
    }

    /// The entries, oldest first.
    pub closed spec fn entries(self) -> Seq<CacheEntry> {
        self.entries@
    }

    /// The entry under `key`, where there is one.
    pub open spec fn entry(self, key: Seq<char>) -> Option<EntryModel> {
        entry_of(self.entries(), key)
    }

    /// The number of entries.
    pub open spec fn len(self) -> nat {
        self.entries().len()
    }

    /// The time to live of an entry, in seconds.
    pub closed spec fn ttl(self) -> u64 {
        self.ttl_seconds
    }

    /// The number of entries from which on a new key evicts an old entry.
    pub closed spec fn capacity(self) -> usize {
        self.max_size
    }

    /// The deadline of an entry stored at `now`: `now` and the time to live,
    /// or the end of time where that lies beyond it.
    pub open spec fn deadline(self, now: u64) -> u64 {
        if now + self.ttl() * 1000 <= u64::MAX {
            (now + self.ttl() * 1000) as u64
        } else {
            u64::MAX
        }
    }

    /// What storing `response` under `key` at `now` makes of the cache
    /// `before`. The key then has the response, to live until the deadline.
    /// Where `before` was at its capacity and did not have the key, one of
    /// its entries with the earliest deadline is gone and every other key is
    /// as it was. Else every other key is as it was.
    pub open spec fn stores(
        self,
        before: ResponseCache,
        key: Seq<char>,
        response: CachedResponseView,
        now: u64,
    ) -> bool {
        &&& self.entry(key) == Some(
            EntryModel { key, response, expires_at: before.deadline(now) },
        )
        &&& if before.len() >= before.capacity() && before.entry(key) is None && before.len() > 0 {
            &&& self.len() == before.len()
            &&& exists|evicted: EntryModel|
                {
                    &&& #[trigger] before.entry(evicted.key) == Some(evicted)
                    &&& evicted.key != key
                    &&& self.entry(evicted.key) is None
                    &&& forall|other: Seq<char>|
                        (#[trigger] before.entry(other)) matches Some(e) ==> evicted.expires_at
                            <= e.expires_at
                    &&& forall|other: Seq<char>|
                        other != key && other != evicted.key ==> #[trigger] self.entry(other)
                            == before.entry(other)
                }
        } else {
            &&& self.len() == before.len() + if before.entry(key) is None {
                1int
            } else {
                0int
            }
            &&& forall|other: Seq<char>|
                other != key ==> #[trigger] self.entry(other) == before.entry(other)
        }
    }

    /// What a lookup of `key` at `now` answers: the response of the entry
    /// under the key, where there is one and its deadline lies after `now`.
    pub open spec fn answer(self, key: Seq<char>, now: u64) -> Option<CachedResponseView> {
        match self.entry(key) {
            Some(e) => if now < e.expires_at {
                Some(e.response)
            } else {
                None
            },
            None => None,
        }
    }

    /// An empty cache whose entries live `ttl_seconds` seconds and which
    /// holds `max_size` entries before a new key evicts an old one.
    pub fn new(ttl_seconds: u64, max_size: usize) -> (cache: ResponseCache)
        ensures
            cache.len() == 0,
            cache.ttl() == ttl_seconds,
            cache.capacity() == max_size,
    {
        ResponseCache { entries: Vec::new(), ttl_seconds, max_size }
    }

    /// The fingerprint of a request: see `cache_key`.
    pub fn generate_key(&self, body: &Json, path: &str) -> (key: String)
        ensures
            key@ == cache_key(body@, path@),
    {
        let kept = normalize(body);
        let head = joined(path, ":");
        let text = joined(head.as_str(), kept.to_text().as_str());
        let digest = sha256_digest(text.as_str().as_bytes());
        base64_encode(digest.as_slice())
    }

    /// Whether the answer to a request may be cached: see `cacheable`.
    pub fn is_cacheable(&self, body: &Json) -> (yes: bool)
        ensures
            yes == cacheable(body@),
    {
        if body.field_is_bool("stream", true) {
            return false;
        }
        if body.field_is_bool("cache", false) {
            return false;
        }
        match body.get("temperature") {
            Some(value) => match value.as_number() {
                Some(t) => {
                    let bound = JsonNumber::decimal(false, 1, -2);
                    if bound.lt(&t) {
                        return false;
                    }
                },
                None => {},
            },
            None => {},
        }
        match body.get("top_p") {
            Some(value) => match value.as_number() {
                Some(p) => {
                    let bound = JsonNumber::decimal(false, 999, -3);
                    if p.lt(&bound) {
                        return false;
                    }
                },
                None => {},
            },
            None => {},
        }
        true
    }

    /// The place of the entry under `key`, or the number of entries where
    /// there is none.
    fn find(&self, key: &str) -> (at: usize)
        ensures
            at <= self.entries().len(),
            at < self.entries().len() ==> self.entries()[at as int]@.key == key@ && self.entry(
                key@,
            ) == Some(self.entries()[at as int]@),
            at == self.entries().len() ==> self.entry(key@) is None,
    {
        proof {
            use_type_invariant(self);
        }
        let mut i: usize = 0;
        while i < self.entries.len()
            invariant
                i <= self.entries.len(),
                distinct_keys(self.entries@),
                forall|k: int| 0 <= k < i ==> self.entries@[k]@.key != key@,
            decreases self.entries.len() - i,
        {
            if str_eq(self.entries[i].key.as_str(), key) {
                proof {
                    lemma_entry_found(self.entries@, i as int);
                }
                return i;
            }
            i += 1;
        }
        proof {
            lemma_entry_of(self.entries@, key@);
        }
        i
    }

    /// The cached response under `key`, where there is one whose deadline
    /// lies after `now`: a hit, which is counted as one. Anything else is a
    /// miss, which is counted as one.
    pub fn get(&self, key: &str, now: u64, metrics: &mut Metrics) -> (found: Option<
        CachedResponse,
    >)
        ensures
            (match found {
                Some(response) => Some(response@),
                None => None,
            }) == self.answer(key@, now),
            *final(metrics) == old(metrics).with_lookup(found is Some),
            match found {
                Some(response) => {
                    &&& self.entry(key@) matches Some(e)
                    &&& now < e.expires_at
                    &&& response@ == e.response
                    &&& *final(metrics) == (Metrics {
                        cache_hit_count: wrapped_sum(old(metrics).cache_hit_count, 1),
                        ..*old(metrics)
                    })
                },
                None => {
                    &&& !(self.entry(key@) matches Some(e) && now < e.expires_at)
                    &&& *final(metrics) == (Metrics {
                        cache_miss_count: wrapped_sum(old(metrics).cache_miss_count, 1),
                        ..*old(metrics)
                    })
                },
            },
    {
        let at = self.find(key);
        if at < self.entries.len() {
            if now < self.entries[at].expires_at {
                metrics.cache_hit();
                return Some(self.entries[at].response.clone());
            }
        }
        metrics.cache_miss();
        None
    }

    /// Stores a response under `key`, to live until `deadline(now)`. A
    /// response whose status is not one of success is not stored. Where the
    /// cache is at its capacity and the key is new, one entry with the
    /// earliest deadline is evicted first. The result is always `Ok`.
    pub fn set(&mut self, key: &str, response: CachedResponse, now: u64) -> (result: Result<
        (),
        GatewayApiError,
    >)
        ensures
            result is Ok,
            final(self).ttl() == old(self).ttl(),
            final(self).capacity() == old(self).capacity(),
            !is_success(response.status) ==> final(self).entries() == old(self).entries(),
            is_success(response.status) ==> final(self).stores(*old(self), key@, response@, now),
    {
        proof {
            use_type_invariant(&*self);
        }
        if !(200 <= response.status && response.status < 300) {
            return Ok(());
        }
        let ttl_ms: u64 = if self.ttl_seconds <= u64::MAX / 1000 {
            self.ttl_seconds * 1000
        } else {
            u64::MAX
        };
        let expires_at: u64 = if ttl_ms <= u64::MAX - now {
            now + ttl_ms
        } else {
            u64::MAX
        };
        let ghost before = self.entries@;
        let at = self.find(key);
        let mut entries: Vec<CacheEntry> = Vec::new();
        core::mem::swap(&mut entries, &mut self.entries);
        let ghost mut evicted: Option<EntryModel> = None;
        if at < entries.len() {
            proof {
                lemma_entry_removed(entries@, at as int);
            }
            entries.remove(at);
        } else if entries.len() >= self.max_size && entries.len() > 0 {
            let ghost cache_before = ResponseCache {
                entries,
                ttl_seconds: self.ttl_seconds,
                max_size: self.max_size,
            };
            let victim = soonest_of(&entries);
            proof {
                lemma_entry_removed(entries@, victim as int);
                lemma_entry_found(entries@, victim as int);
                evicted = Some(entries@[victim as int]@);
                assert forall|other: Seq<char>|
                    (#[trigger] entry_of(before, other)) is Some implies entries@[victim as int]@.expires_at
                    <= entry_of(before, other)->Some_0.expires_at by {
                    lemma_entry_of(before, other);
                }
            }
            entries.remove(victim);
        }
        let ghost middle = entries@;
        proof {
            lemma_entry_of(middle, key@);
            assert(entry_of(middle, key@) is None);
        }
        entries.push(CacheEntry { key: key.to_owned(), response, expires_at });
        proof {
            let after = entries@;
            assert(after.drop_last() =~= middle);
            assert forall|i: int, j: int| 0 <= i < j < after.len() implies (#[trigger] after[i])@.key
                != (#[trigger] after[j])@.key by {
                if j == after.len() - 1 {
                    lemma_entry_of(middle, key@);
                    assert(after[i] == middle[i]);
                    if middle[i]@.key == key@ {
                        lemma_entry_found(middle, i);
                    }
                } else {
                    assert(after[i] == middle[i]);
                    assert(after[j] == middle[j]);
                }
            }
            assert forall|other: Seq<char>| other != key@ implies #[trigger] entry_of(after, other)
                == entry_of(middle, other) by {}
        }
        self.entries = entries;
        proof {
            if evicted is Some {
                let ev = evicted->Some_0;
                assert(old(self).entry(ev.key) == Some(ev));
                assert(self.entry(ev.key) is None);
            }
        }
        Ok(())
    }

    /// Removes every entry whose deadline has passed at `now`.
    pub fn clean_expired(&mut self, now: u64)
        ensures
            final(self).ttl() == old(self).ttl(),
            final(self).capacity() == old(self).capacity(),
            forall|key: Seq<char>| #[trigger]
                final(self).entry(key) == (match old(self).entry(key) {
                    Some(e) => if e.expires_at > now {
                        Some(e)
                    } else {
                        None
                    },
                    None => None,
                }),
            final(self).len() == live_count(old(self).entries(), now),
    {
        proof {
            use_type_invariant(&*self);
        }
        let ghost before = self.entries@;
        let mut entries: Vec<CacheEntry> = Vec::new();
        core::mem::swap(&mut entries, &mut self.entries);
        let mut i: usize = 0;
        proof {
            assert(entries@.skip(0) =~= entries@);
            assert(entries@.take(0) =~= Seq::<CacheEntry>::empty());
        }
        while i < entries.len()
            invariant
                i <= entries.len(),
                distinct_keys(entries@),
                distinct_keys(before),
                forall|k: int| 0 <= k < i ==> entries@[k]@.expires_at > now,
                forall|key: Seq<char>|
                    (#[trigger] entry_of(entries@, key)) is Some ==> entry_of(before, key)
                        == entry_of(entries@, key),
                forall|key: Seq<char>|
                    (#[trigger] entry_of(before, key)) is Some && entry_of(
                        before,
                        key,
                    )->Some_0.expires_at > now ==> entry_of(entries@, key) == entry_of(before, key),
                live_count(before, now) == i + live_count(entries@.skip(i as int), now),
            decreases entries.len() - i,
        {
            let ghost current = entries@;
            if entries[i].expires_at <= now {
                proof {
                    lemma_entry_removed(current, i as int);
                    lemma_entry_found(current, i as int);
                    lemma_live_count_first(current.skip(i as int), now);
                    assert(current.skip(i as int).drop_first() =~= current.remove(i as int).skip(
                        i as int,
                    ));
                }
                entries.remove(i);
                proof {
                    assert forall|k: int| 0 <= k < i implies entries@[k]@.expires_at > now by {
                        assert(entries@[k] == current[k]);
                    }
                }
            } else {
                proof {
                    lemma_live_count_first(current.skip(i as int), now);
                    assert(current.skip(i as int).drop_first() =~= current.skip(i + 1));
                }
                i += 1;
            }
        }
        proof {
            assert(entries@.skip(entries@.len() as int) =~= Seq::<CacheEntry>::empty());
            assert forall|key: Seq<char>| #[trigger]
                entry_of(entries@, key) == (match entry_of(before, key) {
                    Some(e) => if e.expires_at > now {
                        Some(e)
                    } else {
                        None
                    },
                    None => None,
                }) by {
                lemma_entry_of(entries@, key);
            }
        }
        self.entries = entries;
    }

    /// The number of entries whose deadline lies after `now`, and the number
    /// of all entries.
    pub fn get_stats(&self, now: u64) -> (stats: (usize, usize))
        ensures
            stats.0 == live_count(self.entries(), now),
            stats.1 == self.len(),
    {
        let mut active: usize = 0;
        let mut i: usize = 0;
        proof {
            assert(self.entries@.take(0) =~= Seq::<CacheEntry>::empty());
        }
        while i < self.entries.len()
            invariant
                i <= self.entries.len(),
                active <= i,
                active == live_count(self.entries@.take(i as int), now),
            decreases self.entries.len() - i,
        {
            proof {
                let t = self.entries@.take(i + 1);
                assert(t.drop_last() =~= self.entries@.take(i as int));
                assert(t.last() == self.entries@[i as int]);
            }
            if self.entries[i].expires_at > now {
                active += 1;
            }
            i += 1;
        }
        proof {
            assert(self.entries@.take(self.entries@.len() as int) =~= self.entries@);
        }
        (active, self.entries.len())
    }
}

/// The place of the entry with the earliest deadline.
fn soonest_of(entries: &Vec<CacheEntry>) -> (at: usize)
    requires
        entries@.len() > 0,
    ensures
        at < entries@.len(),
        forall|k: int| 0 <= k < entries@.len() ==> entries@[at as int]@.expires_at <= entries@[k]@.expires_at,
{
    let mut best: usize = 0;
    let mut i: usize = 1;
    while i < entries.len()
        invariant
            1 <= i <= entries.len(),
            best < i,
            forall|k: int| 0 <= k < i ==> entries@[best as int]@.expires_at <= entries@[k]@.expires_at,
        decreases entries.len() - i,
    {
        if entries[i].expires_at < entries[best].expires_at {
            best = i;
        }
        i += 1;
    }
    best
}

/// The live entries of a run are its first, where that is live, and the live
/// entries of the rest.
proof fn lemma_live_count_first(entries: Seq<CacheEntry>, now: u64)
    requires
        entries.len() > 0,
    ensures
        live_count(entries, now) == live_count(entries.drop_first(), now) + if entries[0]@.expires_at
            > now {
            1nat
        } else {
            0nat
        },
    decreases entries.len(),
{
    if entries.len() == 1 {
        assert(entries.drop_last() =~= entries.drop_first());
        assert(entries.last() == entries[0]);
    } else {
        lemma_live_count_first(entries.drop_last(), now);
        assert(entries.drop_last().drop_first() =~= entries.drop_first().drop_last());
        assert(entries.drop_first().last() == entries.last());
        assert(entries.drop_last()[0] == entries[0]);
    }
}

/// The normalized body of a request: see `normalized`.
pub fn normalize(body: &Json) -> (kept: Json)
    ensures
        kept@ == normalized(body@),
{
    match body {
        Json::Object(_) => {
            let names: [&str; 8] = [
                "frequency_penalty",
                "max_tokens",
                "messages",
                "model",
                "presence_penalty",
                "stop",
                "temperature",
                "top_p",
            ];
            let ghost list = allow_list();
            let mut out: Vec<(String, Json)> = Vec::new();
            let mut i: usize = 0;
            proof {
                assert(list.take(0) =~= Seq::<Seq<char>>::empty());
                lemma_field_views(out@);
            }
            while i < 8
                invariant
                    i <= 8,
                    list == allow_list(),
                    names@.len() == 8,
                    forall|k: int| 0 <= k < 8 ==> (#[trigger] names@[k])@ == list[k],
                    field_views(out@) == kept_fields(body@, list.take(i as int)),
                decreases 8 - i,
            {
                let ghost before = out@;
                proof {
                    let t = list.take(i + 1);
                    assert(t.drop_last() =~= list.take(i as int));
                    assert(t.last() == list[i as int]);
                    lemma_field_views(before);
                }
                match body.get(names[i]) {
                    Some(value) => {
                        out.push((names[i].to_owned(), value.clone()));
                        proof {
                            lemma_field_views(out@);
                            assert(field_views(out@) =~= field_views(before).push(
                                (list[i as int], value@),
                            ));
                        }
                    },
                    None => {},
                }
                i += 1;
            }
            proof {
                assert(list.take(8) =~= list);
            }
            Json::Object(out)
        },
        _ => body.clone(),
    }
}

} // verus!
