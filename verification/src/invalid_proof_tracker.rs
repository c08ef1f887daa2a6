//! The validators that signed an invalid proof. One such proof bans a validator for all kinds of
//! proofs, across restarts.

use crate::codec::{lemma_public_key_bytes, to_array, to_vec, variable_part};
use crate::encoded::lemma_part_len;
use crate::engine::prune_model::lists;
use crate::hash::{Hash256, PublicKeyBytes};
use crate::ssz::{
    byte_views, container, container_len, decode_container, decode_list, encode_container, encodes,
    fits, head_len, lemma_container_injective, lemma_lengths, lemma_list_injective, list_of,
    part_views, parts_of, schema_len, variable, variables, Part, PartView,
};
use crate::store::{DBColumn, KeyValueStoreOp, StoreError, StoreOpView};
use crate::table::KeyedSet;
use vstd::prelude::*;

verus! {

/// The key under which the tracker is stored.
pub fn invalid_proof_tracker_db_key() -> (r: Hash256)
    ensures
        r == Hash256::spec_zero(),
{
    Hash256::zero()
}

/// What is recorded when a validator is banned.
#[derive(Debug, Clone, Copy)]
pub struct InvalidProofRecord {
    pub validator_pubkey: PublicKeyBytes,
    pub request_root: Hash256,
    pub proof_type: u8,
}

/// The validators that signed an invalid proof.
pub struct InvalidProofTracker {
    banned_validators: KeyedSet<PublicKeyBytes>,
}

/// The banned validators.
impl View for InvalidProofTracker {
    type V = Set<PublicKeyBytes>;

    closed spec fn view(&self) -> Set<PublicKeyBytes> {
        self.banned_validators@
    }
}

impl Default for InvalidProofTracker {
    fn default() -> (r: Self)
        ensures
            r@ == Set::<PublicKeyBytes>::empty(),
    {
        InvalidProofTracker { banned_validators: KeyedSet::new() }
    }
}

/// Whether one string of bytes comes before another of the same length: it has the smaller byte
/// where they first differ.
pub open spec fn precedes(a: Seq<u8>, b: Seq<u8>) -> bool {
    exists|k: int| #[trigger] differs_first(a, b, k) && a[k] < b[k]
}

/// Whether two strings of bytes differ at `k` and nowhere before.
pub open spec fn differs_first(a: Seq<u8>, b: Seq<u8>, k: int) -> bool {
    0 <= k < a.len() && k < b.len() && a[k] != b[k] && a.take(k) == b.take(k)
}

/// Whether keys stand in ascending order, none of them twice.
pub open spec fn ascending(keys: Seq<PublicKeyBytes>) -> bool {
    forall|i: int, j: int|
        0 <= i < j < keys.len() ==> precedes((#[trigger] keys[i]).0@, (#[trigger] keys[j]).0@)
}

proof fn lemma_precedes_transitive(a: Seq<u8>, b: Seq<u8>, c: Seq<u8>)
    requires
        precedes(a, b),
        precedes(b, c),
    ensures
        precedes(a, c),
{
    let k = choose|k: int| #[trigger] differs_first(a, b, k) && a[k] < b[k];
    let l = choose|k: int| #[trigger] differs_first(b, c, k) && b[k] < c[k];
    let m = if k <= l { k } else { l };
    assert(a.take(m) =~= c.take(m)) by {
        assert forall|i: int| 0 <= i < m implies a[i] == c[i] by {
            assert(a.take(k)[i] == b.take(k)[i]);
            assert(b.take(l)[i] == c.take(l)[i]);
        }
    }
    if k < l {
        assert(b.take(l)[k] == c.take(l)[k]);
    }
    if l < k {
        assert(a.take(k)[l] == b.take(k)[l]);
    }
    assert(differs_first(a, c, m) && a[m] < c[m]);
}

proof fn lemma_precedes_irreflexive(a: Seq<u8>)
    ensures
        !precedes(a, a),
{
}

/// Whether a key comes before another.
fn comes_before(a: &PublicKeyBytes, b: &PublicKeyBytes) -> (r: bool)
    ensures
        r == precedes(a.0@, b.0@),
        !r ==> *a == *b || precedes(b.0@, a.0@),
{
    let mut i: usize = 0;
    while i < 48
        invariant
            i <= 48,
            forall|j: int| 0 <= j < i ==> a.0@[j] == b.0@[j],
        decreases 48 - i,
    {
        if a.0[i] != b.0[i] {
            let r = a.0[i] < b.0[i];
            proof {
                assert(a.0@.take(i as int) =~= b.0@.take(i as int));
                assert(differs_first(a.0@, b.0@, i as int));
                assert(differs_first(b.0@, a.0@, i as int));
                if !r && precedes(a.0@, b.0@) {
                    lemma_precedes_transitive(a.0@, b.0@, a.0@);
                }
            }
            return r;
        }
        i = i + 1;
    }
    proof {
        assert(a.0@ =~= b.0@);
        lemma_public_key_bytes(*a, *b);
    }
    false
}

/// The keys in ascending order.
fn sort_keys(keys: Vec<PublicKeyBytes>) -> (r: Vec<PublicKeyBytes>)
    requires
        keys@.no_duplicates(),
    ensures
        ascending(r@),
        lists(r@, keys@.to_set()),
{
    let mut sorted: Vec<PublicKeyBytes> = Vec::new();
    let mut n: usize = 0;
    assert(keys@.take(0).to_set() =~= Set::<PublicKeyBytes>::empty());
    assert(sorted@.to_set() =~= Set::<PublicKeyBytes>::empty());
    while n < keys.len()
        invariant
            n <= keys@.len(),
            keys@.no_duplicates(),
            ascending(sorted@),
            lists(sorted@, keys@.take(n as int).to_set()),
        decreases keys@.len() - n,
    {
        let key = keys[n];
        let mut i: usize = 0;
        while i < sorted.len() && comes_before(&sorted[i], &key)
            invariant
                i <= sorted@.len(),
                forall|j: int| 0 <= j < i ==> precedes((#[trigger] sorted@[j]).0@, key.0@),
            decreases sorted@.len() - i,
        {
            i = i + 1;
        }
        let ghost before = sorted@;
        sorted.insert(i, key);
        proof {
            lemma_inserted(keys@, n as int, before, i as int);
        }
        n = n + 1;
    }
    assert(keys@.take(n as int) =~= keys@);
    sorted
}

/// One more key, put where it belongs.
proof fn lemma_inserted(keys: Seq<PublicKeyBytes>, n: int, before: Seq<PublicKeyBytes>, i: int)
    requires
        0 <= n < keys.len(),
        keys.no_duplicates(),
        ascending(before),
        lists(before, keys.take(n).to_set()),
        0 <= i <= before.len(),
        forall|j: int| 0 <= j < i ==> precedes((#[trigger] before[j]).0@, keys[n].0@),
        i < before.len() ==> before[i] == keys[n] || precedes(keys[n].0@, before[i].0@),
    ensures
        ascending(before.insert(i, keys[n])),
        lists(before.insert(i, keys[n]), keys.take(n + 1).to_set()),
{
    let key = keys[n];
    let after = before.insert(i, key);
    assert(!before.contains(key)) by {
        if before.contains(key) {
            assert(before.to_set().contains(key));
            assert(keys.take(n).contains(key));
            let j = keys.take(n).index_of(key);
            assert(keys[j] == keys[n]);
        }
    }
    if i < before.len() {
        assert(before.contains(before[i]));
    }
    assert forall|a: int, b: int| 0 <= a < b < after.len() implies precedes(
        (#[trigger] after[a]).0@,
        (#[trigger] after[b]).0@,
    ) by {
        let a2 = if a < i { a } else { a - 1 };
        let b2 = if b < i { b } else { b - 1 };
        if a == i {
            if b2 != i {
                assert(precedes(before[i].0@, before[b2].0@));
                lemma_precedes_transitive(key.0@, before[i].0@, before[b2].0@);
            }
        } else if b != i {
            assert(after[a] == before[a2] && after[b] == before[b2]);
        }
    }
    assert(after.no_duplicates()) by {
        assert forall|a: int, b: int| 0 <= a < after.len() && 0 <= b < after.len() && a != b implies
            after[a] != after[b] by {
            lemma_precedes_irreflexive(after[a].0@);
            if a < b {
                assert(precedes(after[a].0@, after[b].0@));
            } else {
                assert(precedes(after[b].0@, after[a].0@));
            }
        }
    }
    assert(after.to_set() =~= keys.take(n + 1).to_set()) by {
        assert(keys.take(n + 1) =~= keys.take(n).push(key));
        keys.take(n).lemma_push_to_set_commute(key);
        assert forall|k: PublicKeyBytes| after.to_set().contains(k) == before.to_set().insert(
            key,
        ).contains(k) by {
            if after.contains(k) {
                let a = after.index_of(k);
                if a != i {
                    let a2 = if a < i { a } else { a - 1 };
                    assert(before[a2] == k);
                }
            }
            if k == key {
                assert(after[i] == k);
            } else if before.contains(k) {
                let a = before.index_of(k);
                let a2 = if a < i { a } else { a + 1 };
                assert(after[a2] == k);
            }
        }
    }
}

/// A set of keys has one ascending order: what is stored depends on the set alone.
pub proof fn law_one_order(a: Seq<PublicKeyBytes>, b: Seq<PublicKeyBytes>)
    requires
        ascending(a),
        ascending(b),
        a.to_set() == b.to_set(),
    ensures
        a == b,
    decreases a.len(),
{
    if a.len() == 0 {
        if b.len() > 0 {
            assert(b.to_set().contains(b[0]));
            assert(a.contains(b[0]));
        }
        assert(a =~= b);
    } else {
        assert(a.to_set().contains(a[0]));
        assert(b.contains(a[0]));
        assert(b.to_set().contains(b[0]));
        assert(a.contains(b[0]));
        let i = a.index_of(b[0]);
        let j = b.index_of(a[0]);
        if a[0] != b[0] {
            assert(precedes(a[0].0@, a[i].0@));
            assert(precedes(b[0].0@, b[j].0@));
            lemma_precedes_transitive(a[0].0@, b[0].0@, a[0].0@);
            lemma_precedes_irreflexive(a[0].0@);
        }
        let x = a.drop_first();
        let y = b.drop_first();
        assert(x.to_set() =~= y.to_set()) by {
            lemma_drop_first(a);
            lemma_drop_first(b);
        }
        assert(ascending(x)) by {
            assert forall|p: int, q: int| 0 <= p < q < x.len() implies precedes(
                (#[trigger] x[p]).0@,
                (#[trigger] x[q]).0@,
            ) by {
                assert(x[p] == a[p + 1] && x[q] == a[q + 1]);
            }
        }
        assert(ascending(y)) by {
            assert forall|p: int, q: int| 0 <= p < q < y.len() implies precedes(
                (#[trigger] y[p]).0@,
                (#[trigger] y[q]).0@,
            ) by {
                assert(y[p] == b[p + 1] && y[q] == b[q + 1]);
            }
        }
        law_one_order(x, y);
        assert(a =~= seq![a[0]] + x);
        assert(b =~= seq![b[0]] + y);
    }
}

proof fn lemma_drop_first(a: Seq<PublicKeyBytes>)
    requires
        ascending(a),
        a.len() > 0,
    ensures
        a.drop_first().to_set() == a.to_set().remove(a[0]),
{
    let x = a.drop_first();
    assert forall|k: PublicKeyBytes| x.to_set().contains(k) == a.to_set().remove(a[0]).contains(
        k,
    ) by {
        if x.contains(k) {
            let i = x.index_of(k);
            assert(a[i + 1] == k);
            assert(precedes(a[0].0@, a[i + 1].0@));
            lemma_precedes_irreflexive(a[0].0@);
        }
        if a.contains(k) && k != a[0] {
            let i = a.index_of(k);
            assert(x[i - 1] == k);
        }
    }
    assert(x.to_set() =~= a.to_set().remove(a[0]));
}

/// The bytes of keys.
pub open spec fn key_bytes(keys: Seq<PublicKeyBytes>) -> Seq<Seq<u8>> {
    keys.map_values(|k: PublicKeyBytes| k.0@)
}

/// The parts of a stored tracker.
pub open spec fn tracker_parts(items: Seq<Seq<u8>>) -> Seq<PartView> {
    seq![variable(list_of(items))]
}

/// The encoding of a stored tracker: a container with one list of strings of bytes.
pub open spec fn tracker_encoding(items: Seq<Seq<u8>>) -> Seq<u8> {
    container(tracker_parts(items))
}

/// Whether bytes encode a stored tracker that holds these strings of bytes.
pub open spec fn tracker_encodes(bytes: Seq<u8>, items: Seq<Seq<u8>>) -> bool {
    bytes == tracker_encoding(items) && bytes.len() <= u32::MAX
}

/// The keys among strings of bytes: those of the length of a key.
pub open spec fn keys_among(items: Seq<Seq<u8>>) -> Set<PublicKeyBytes> {
    Set::new(|k: PublicKeyBytes| items.contains(k.0@))
}

proof fn lemma_tracker_parts(items: Seq<Seq<u8>>)
    ensures
        fits(tracker_parts(items), seq![None]),
        schema_len(seq![None]) == 4,
        tracker_encoding(items).len() == container_len(tracker_parts(items)),
        list_of(items).len() <= tracker_encoding(items).len(),
        list_of(items).len() == container_len(variables(items)),
{
    reveal_with_fuel(schema_len, 2);
    assert(seq![None::<usize>].drop_last() =~= Seq::<Option<usize>>::empty());
    lemma_part_len(tracker_parts(items), 0);
    assert(tracker_parts(items)[0].bytes == list_of(items));
    lemma_lengths(variables(items), head_len(variables(items)));
}

/// Bytes encode at most one list of strings of bytes.
pub proof fn lemma_tracker_injective(a: Seq<Seq<u8>>, b: Seq<Seq<u8>>)
    requires
        tracker_encoding(a) == tracker_encoding(b),
        tracker_encoding(a).len() <= u32::MAX,
    ensures
        a == b,
{
    lemma_tracker_parts(a);
    lemma_tracker_parts(b);
    lemma_container_injective(tracker_parts(a), tracker_parts(b), seq![None]);
    assert(tracker_parts(a)[0] == tracker_parts(b)[0]);
    lemma_list_injective(a, b);
}

/// The keys of the bytes of keys are these keys.
pub proof fn lemma_keys_among(keys: Seq<PublicKeyBytes>)
    ensures
        keys_among(key_bytes(keys)) == keys.to_set(),
{
    let items = key_bytes(keys);
    assert forall|k: PublicKeyBytes| items.contains(k.0@) == keys.contains(k) by {
        if items.contains(k.0@) {
            let i = items.index_of(k.0@);
            assert(items[i] == keys[i].0@);
            lemma_public_key_bytes(k, keys[i]);
        }
        if keys.contains(k) {
            let i = keys.index_of(k);
            assert(items[i] == k.0@);
        }
    }
    assert(keys_among(items) =~= keys.to_set());
}

/// The strings of bytes that a stored tracker holds.
fn decode_tracker(bytes: &[u8]) -> (r: Option<Vec<Vec<u8>>>)
    ensures
        match r {
            Some(items) => bytes@ == tracker_encoding(byte_views(items@)),
            None => forall|items: Seq<Seq<u8>>| !#[trigger] tracker_encodes(bytes@, items),
        },
{
    let mut schema: Vec<Option<usize>> = Vec::new();
    schema.push(None);
    proof {
        assert(schema@ =~= seq![None]);
        lemma_tracker_parts(Seq::empty());
        assert forall|items: Seq<Seq<u8>>| #[trigger]
            tracker_encodes(bytes@, items) implies encodes(
            bytes@,
            tracker_parts(items),
            schema@,
        ) by {
            lemma_tracker_parts(items);
        }
    }
    let parts = match decode_container(bytes, &schema) {
        Some(parts) => parts,
        None => return None,
    };
    let ghost views = parts_of(byte_views(parts@), schema@);
    proof {
        assert(views[0].bytes == parts@[0]@);
        assert forall|items: Seq<Seq<u8>>| #[trigger]
            tracker_encodes(bytes@, items) implies parts@[0]@ == list_of(items) && container_len(
            variables(items),
        ) <= u32::MAX by {
            lemma_tracker_parts(items);
            lemma_lengths(views, head_len(views));
            lemma_container_injective(views, tracker_parts(items), schema@);
            assert(views[0] == tracker_parts(items)[0]);
        }
    }
    match decode_list(parts[0].as_slice()) {
        Some(items) => {
            assert(views =~= tracker_parts(byte_views(items@)));
            Some(items)
        },
        None => None,
    }
}

impl InvalidProofTracker {
    /// The tracker that was stored, or an empty one where none was or it cannot be read. `stored`
    /// is what the store gave. Strings of bytes that are no key are skipped.
    pub fn load_from_store(stored: Result<Option<Vec<u8>>, StoreError>) -> (r: Self)
        ensures
            match stored {
                Ok(Some(bytes)) => {
                    &&& forall|items: Seq<Seq<u8>>| #[trigger]
                        tracker_encodes(bytes@, items) ==> r@ == keys_among(items)
                    &&& (forall|items: Seq<Seq<u8>>| bytes@ != #[trigger] tracker_encoding(items))
                        ==> r@ == Set::<PublicKeyBytes>::empty()
                    &&& r@ == Set::<PublicKeyBytes>::empty() || exists|items: Seq<Seq<u8>>|
                        bytes@ == #[trigger] tracker_encoding(items) && r@ == keys_among(items)
                },
                _ => r@ == Set::<PublicKeyBytes>::empty(),
            },
    {
        let mut r = InvalidProofTracker::default();
        let bytes = match stored {
            Ok(Some(bytes)) => bytes,
            _ => return r,
        };
        let items = match decode_tracker(bytes.as_slice()) {
            Some(items) => items,
            None => return r,
        };
        let ghost raw = byte_views(items@);
        let mut i: usize = 0;
        assert(keys_among(raw.take(0)) =~= Set::<PublicKeyBytes>::empty());
        while i < items.len()
            invariant
                i <= items@.len(),
                raw == byte_views(items@),
                r@ == keys_among(raw.take(i as int)),
            decreases items@.len() - i,
        {
            let ghost taken = raw.take(i as int);
            let ghost next = raw.take(i + 1);
            proof {
                assert(next =~= taken.push(raw[i as int]));
                assert forall|k: PublicKeyBytes| next.contains(k.0@) == (taken.contains(k.0@)
                    || k.0@ == raw[i as int]) by {
                    if taken.contains(k.0@) {
                        let j = taken.index_of(k.0@);
                        assert(next[j] == k.0@);
                    }
                    if k.0@ == raw[i as int] {
                        assert(next[i as int] == k.0@);
                    }
                }
            }
            if items[i].len() == 48 {
                let key = PublicKeyBytes(to_array(items[i].as_slice()));
                r.banned_validators.insert(key);
                proof {
                    assert forall|k: PublicKeyBytes| k.0@ == raw[i as int] implies k == key by {
                        lemma_public_key_bytes(k, key);
                    }
                    assert(r@ =~= keys_among(next));
                }
            } else {
                assert(r@ =~= keys_among(next));
            }
            i = i + 1;
        }
        proof {
            assert(raw.take(i as int) =~= raw);
            assert forall|items: Seq<Seq<u8>>| #[trigger] tracker_encodes(bytes@, items) implies r@
                == keys_among(items) by {
                lemma_tracker_injective(items, raw);
            }
            assert(bytes@ == tracker_encoding(raw));
        }
        r
    }

    /// The change that stores the tracker: its keys in ascending order. It fails only where they
    /// are too many for the offsets of the encoding.
    pub fn persist_to_store(&self) -> (r: Result<KeyValueStoreOp, StoreError>)
        ensures
            exists|order: Seq<PublicKeyBytes>|
                {
                    let bytes = tracker_encoding(key_bytes(order));
                    &&& #[trigger] ascending(order)
                    &&& lists(order, self@)
                    &&& match r {
                        Ok(op) => bytes.len() <= u32::MAX && op@ == StoreOpView::PutKeyValue(
                            DBColumn::InvalidProofTracker,
                            Hash256::spec_zero().0@,
                            bytes,
                        ),
                        Err(e) => e is TooLong && bytes.len() > u32::MAX,
                    }
                },
    {
        let sorted = sort_keys(self.banned_validators.items());
        let ghost raw = key_bytes(sorted@);
        let mut items: Vec<Part> = Vec::new();
        let mut i: usize = 0;
        while i < sorted.len()
            invariant
                i <= sorted@.len(),
                raw == key_bytes(sorted@),
                items@.len() == i,
                forall|j: int| 0 <= j < i ==> (#[trigger] items@[j])@ == variable(raw[j]),
            decreases sorted@.len() - i,
        {
            items.push(variable_part(to_vec(sorted[i].0.as_slice())));
            i = i + 1;
        }
        proof {
            assert(part_views(items@) =~= variables(raw));
            lemma_tracker_parts(raw);
        }
        let list = match encode_container(&items) {
            Some(list) => list,
            None => {
                assert(ascending(sorted@));
                return Err(StoreError::TooLong);
            },
        };
        let mut parts: Vec<Part> = Vec::new();
        parts.push(variable_part(list));
        assert(part_views(parts@) =~= tracker_parts(raw));
        assert(ascending(sorted@));
        match encode_container(&parts) {
            Some(bytes) => {
                let key = invalid_proof_tracker_db_key();
                Ok(
                    KeyValueStoreOp::PutKeyValue(
                        DBColumn::InvalidProofTracker,
                        to_vec(key.0.as_slice()),
                        bytes,
                    ),
                )
            },
            None => Err(StoreError::TooLong),
        }
    }

    /// Whether a validator is banned.
    pub fn is_banned(&self, validator_pubkey: &PublicKeyBytes) -> (r: bool)
        ensures
            r == self@.contains(*validator_pubkey),
    {
        self.banned_validators.contains(validator_pubkey)
    }

    /// Bans the validator that signed an invalid proof. Says whether it was not banned before.
    pub fn record_invalid_proof(&mut self, record: InvalidProofRecord) -> (r: bool)
        ensures
            final(self)@ == old(self)@.insert(record.validator_pubkey),
            r == !old(self)@.contains(record.validator_pubkey),
    {
        self.banned_validators.insert(record.validator_pubkey)
    }

    /// Lifts the ban of a validator. Says whether it was banned.
    pub fn unban(&mut self, validator_pubkey: &PublicKeyBytes) -> (r: bool)
        ensures
            final(self)@ == old(self)@.remove(*validator_pubkey),
            r == old(self)@.contains(*validator_pubkey),
    {
        self.banned_validators.remove(validator_pubkey)
    }

    /// Lifts all bans.
    pub fn clear(&mut self)
        ensures
            final(self)@ == Set::<PublicKeyBytes>::empty(),
    {
        self.banned_validators = KeyedSet::new();
    }

    /// How many validators are banned.
    pub fn banned_count(&self) -> (r: usize)
        ensures
            r == self@.len(),
    {
        self.banned_validators.len()
    }

    /// The banned validators, each once.
    pub fn banned_validators(&self) -> (r: Vec<PublicKeyBytes>)
        ensures
            lists(r@, self@),
    {
        self.banned_validators.items()
    }
}

/// A tracker that is loaded from what another one stored bans the same validators.
pub proof fn law_persist_reload(
    banned: Set<PublicKeyBytes>,
    order: Seq<PublicKeyBytes>,
    bytes: Seq<u8>,
    reloaded: Set<PublicKeyBytes>,
)
    requires
        lists(order, banned),
        bytes == tracker_encoding(key_bytes(order)),
        bytes.len() <= u32::MAX,
        forall|items: Seq<Seq<u8>>| #[trigger]
            tracker_encodes(bytes, items) ==> reloaded == keys_among(items),
    ensures
        reloaded == banned,
{
    assert(tracker_encodes(bytes, key_bytes(order)));
    lemma_keys_among(order);
}

/// A ban that is lifted leaves the other validators as they were.
pub proof fn law_unban_undoes_ban(banned: Set<PublicKeyBytes>, key: PublicKeyBytes)
    requires
        !banned.contains(key),
    ensures
        banned.insert(key).remove(key) == banned,
{
    assert(banned.insert(key).remove(key) =~= banned);
}

/// Of two keys in ascending order the earlier one has the smaller byte where they first differ.
pub proof fn law_ascending_by_bytes(keys: Seq<PublicKeyBytes>, i: int, j: int, k: int)
    requires
        ascending(keys),
        0 <= i < j < keys.len(),
        0 <= k < 48,
        forall|m: int| 0 <= m < k ==> #[trigger] keys[i].0@[m] == keys[j].0@[m],
        keys[i].0@[k] != keys[j].0@[k],
    ensures
        keys[i].0@[k] < keys[j].0@[k],
{
    let a = keys[i].0@;
    let b = keys[j].0@;
    assert(precedes(a, b));
    let l = choose|l: int| #[trigger] differs_first(a, b, l) && a[l] < b[l];
    if k < l {
        assert(a.take(l)[k] == b.take(l)[k]);
    }
}

/// A stored string of bytes is read as a banned key if and only if it is the bytes of that key.
pub proof fn law_keys_read_by_bytes(items: Seq<Seq<u8>>, key: PublicKeyBytes)
    ensures
        keys_among(items).contains(key) <==> exists|i: int|
            0 <= i < items.len() && #[trigger] items[i] == key.0@,
{
}

} // verus!
