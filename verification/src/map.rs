//! Map: a key → value store with `int | string` keys, an optional entry
//! cap, and null-as-absence semantics — null is never stored; every lookup
//! that answers "none" means the key is absent.

use vstd::prelude::*;
use dashmap::DashMap;
use crate::error::{PhpError, SharedError};
use crate::atomic::is_exception;
use crate::rc::{type_class, type_error};
use crate::map_key::{KeyView, MapKey};
use crate::value::{content_eq, sv_content_eq, SharedValue, ValueView};
use crate::wire::{le32, le64, push_all, push_le32, push_le64};

verus! {

#[verifier::external_type_specification]
#[verifier::external_body]
#[verifier::reject_recursive_types(K)]
#[verifier::reject_recursive_types(V)]
#[verifier::reject_recursive_types(S)]
pub struct ExDashMap<K, V, S>(DashMap<K, V, S>);

/// The entries a store holds, keyed and valued abstractly.
pub uninterp spec fn map_entries(m: DashMap<MapKey, SharedValue>) -> Map<KeyView, ValueView>;

/// `DashMap::new`: an empty store.
#[verifier::external_body]
fn entries_new() -> (fresh: DashMap<MapKey, SharedValue>)
    ensures
        map_entries(fresh).dom().len() == 0 && map_entries(fresh).dom().finite(),
{
    DashMap::new()
}

/// `DashMap::get`: the value stored under a key equal to `key`, copied out.
#[verifier::external_body]
fn entries_get(m: &DashMap<MapKey, SharedValue>, key: &MapKey) -> (r: Option<SharedValue>)
    ensures
        r is Some <==> map_entries(*m).dom().contains(key@),
        r matches Some(v) ==> v@ == map_entries(*m)[key@],
{
    match m.get(key) {
        Some(e) => Some(e.value().clone()),
        None => None,
    }
}

/// `DashMap::insert`: stores `value` under `key`, handing back the value it
/// replaces.
#[verifier::external_body]
fn entries_insert(m: &mut DashMap<MapKey, SharedValue>, key: MapKey, value: SharedValue) -> (prev: Option<SharedValue>)
    ensures
        map_entries(*final(m)) == map_entries(*old(m)).insert(key@, value@),
        prev is Some <==> map_entries(*old(m)).dom().contains(key@),
        prev matches Some(v) ==> v@ == map_entries(*old(m))[key@],
{
    m.insert(key, value)
}

/// `DashMap::remove`: takes out the entry for `key`, handing back its value.
#[verifier::external_body]
fn entries_remove(m: &mut DashMap<MapKey, SharedValue>, key: &MapKey) -> (r: Option<SharedValue>)
    ensures
        map_entries(*final(m)) == map_entries(*old(m)).remove(key@),
        r is Some <==> map_entries(*old(m)).dom().contains(key@),
        r matches Some(v) ==> v@ == map_entries(*old(m))[key@],
{
    m.remove(key).map(|(_, v)| v)
}

/// `DashMap::len`: the number of entries, of which there are finitely many.
#[verifier::external_body]
fn entries_len(m: &DashMap<MapKey, SharedValue>) -> (n: usize)
    ensures
        n == map_entries(*m).dom().len(),
{
    m.len()
}

/// `DashMap::clear`: removes every entry.
#[verifier::external_body]
fn entries_clear(m: &mut DashMap<MapKey, SharedValue>)
    ensures
        map_entries(*final(m)).dom().len() == 0 && map_entries(*final(m)).dom().finite(),
{
    m.clear()
}

/// `DashMap::iter`: every key exactly once, in an order the store chooses.
#[verifier::external_body]
fn entries_keys(m: &DashMap<MapKey, SharedValue>) -> (ks: Vec<MapKey>)
    ensures
        forall|i: int| 0 <= i < ks@.len() ==> map_entries(*m).dom().contains(#[trigger] ks@[i]@),
        forall|k: KeyView| map_entries(*m).dom().contains(k) ==> exists|i: int| 0 <= i < ks@.len() && #[trigger] ks@[i]@ == k,
        forall|i: int, j: int| 0 <= i < j < ks@.len() ==> ks@[i]@ != ks@[j]@,
{
    m.iter().map(|e| e.key().clone()).collect()
}

/// Fixed key-slot cost of an integer key in the memory accounting.
pub const INT_KEY_COST: usize = 8;

/// The cap a map is made with from its optional `maxEntries` argument:
/// none when it is absent or null; a positive count caps the entries; zero
/// or a negative count is a type error.
pub fn map_cap_from_arg(arg: Option<i64>) -> (r: Result<Option<usize>, PhpError>)
    ensures
        arg is None ==> r == Ok::<Option<usize>, PhpError>(None),
        arg is Some && arg->0 > 0 ==> r == Ok::<Option<usize>, PhpError>(Some(arg->0 as usize)),
        arg is Some && arg->0 <= 0 ==> (r matches Err(e)
            && is_exception(e, type_class(), "maxEntries must be a positive integer or null"@)),
{
    match arg {
        None => Ok(None),
        Some(n) => {
            if n > 0 {
                Ok(Some(n as usize))
            } else {
                Err(type_error("maxEntries must be a positive integer or null"))
            }
        },
    }
}

/// How one `setMany` element decodes (see `set_many_pair`).
pub open spec fn pair_outcome(is_array: bool, parts: Seq<SharedValue>) -> Result<(KeyView, ValueView), (SharedError, Seq<char>)> {
    if !is_array {
        Err((SharedError::Type, "setMany pair must be a [key, value] array"@))
    } else if parts.len() == 0 {
        Err((SharedError::Type, "setMany pair missing key"@))
    } else if parts.len() == 1 {
        Err((SharedError::Type, "setMany pair missing value"@))
    } else {
        match key_of_value(parts[0]@) {
            Some(k) => Ok((k, parts[1]@)),
            None => Err((SharedError::Type, "map keys must be int or string"@)),
        }
    }
}

/// Decodes a whole `setMany` argument before anything is written: it must
/// be an array, and every element a well-formed pair; the first element
/// that is not refuses the whole batch with its error.
pub fn set_many_pairs(is_array: bool, elems: &Vec<(bool, Vec<SharedValue>)>)
    -> (r: Result<Vec<(MapKey, SharedValue)>, (SharedError, String)>)
    ensures
        !is_array ==> (r matches Err((e, m)) && e == SharedError::Type
            && m@ == "setMany expects an array of [key, value] pairs"@),
        is_array && (forall|i: int| 0 <= i < elems@.len() ==> #[trigger] pair_outcome(elems@[i].0, elems@[i].1@) is Ok) ==> r is Ok,
        r matches Ok(b) ==> {
            &&& b@.len() == elems@.len()
            &&& forall|i: int| 0 <= i < elems@.len() ==>
                #[trigger] pair_outcome(elems@[i].0, elems@[i].1@) == Ok::<(KeyView, ValueView), (SharedError, Seq<char>)>((b@[i].0@, b@[i].1@))
        },
        is_array ==> (r matches Err((e, m)) ==> exists|i: int| {
            &&& 0 <= i < elems@.len()
            &&& forall|j: int| 0 <= j < i ==> #[trigger] pair_outcome(elems@[j].0, elems@[j].1@) is Ok
            &&& #[trigger] pair_outcome(elems@[i].0, elems@[i].1@) == Err::<(KeyView, ValueView), (SharedError, Seq<char>)>((e, m@))
        }),
{
    if !is_array {
        return Err((SharedError::Type, String::from_str("setMany expects an array of [key, value] pairs")));
    }
    let mut out: Vec<(MapKey, SharedValue)> = Vec::new();
    let mut i: usize = 0;
    while i < elems.len()
        invariant
            is_array,
            i <= elems@.len(),
            out@.len() == i,
            forall|j: int| 0 <= j < i ==>
                #[trigger] pair_outcome(elems@[j].0, elems@[j].1@) == Ok::<(KeyView, ValueView), (SharedError, Seq<char>)>((out@[j].0@, out@[j].1@)),
        decreases elems@.len() - i,
    {
        match set_many_pair(elems[i].0, &elems[i].1) {
            Ok(kv) => {
                out.push(kv);
            },
            Err((e, m)) => {
                proof {
                    assert(pair_outcome(elems@[i as int].0, elems@[i as int].1@) == Err::<(KeyView, ValueView), (SharedError, Seq<char>)>((e, m@)));
                    assert forall|j: int| 0 <= j < i implies #[trigger] pair_outcome(elems@[j].0, elems@[j].1@) is Ok by {
                        assert(pair_outcome(elems@[j].0, elems@[j].1@) == Ok::<(KeyView, ValueView), (SharedError, Seq<char>)>((out@[j].0@, out@[j].1@)));
                    }
                }
                return Err((e, m));
            },
        }
        i = i + 1;
    }
    Ok(out)
}

/// One element of a `setMany` batch, decoded: it must be an array (the
/// caller says whether it was one) of at least a key and a value, in that
/// order, and the key must be an integer or a string. The value is handed
/// on as it came.
pub fn set_many_pair(is_array: bool, parts: &Vec<SharedValue>) -> (r: Result<(MapKey, SharedValue), (SharedError, String)>)
    ensures
        !is_array ==> (r matches Err((e, m)) && e == SharedError::Type
            && m@ == "setMany pair must be a [key, value] array"@),
        is_array && parts@.len() == 0 ==> (r matches Err((e, m)) && e == SharedError::Type
            && m@ == "setMany pair missing key"@),
        is_array && parts@.len() == 1 ==> (r matches Err((e, m)) && e == SharedError::Type
            && m@ == "setMany pair missing value"@),
        is_array && parts@.len() >= 2 ==> match key_of_value(parts@[0]@) {
            Some(k) => r matches Ok((key, v)) && key@ == k && v@ == parts@[1]@,
            None => r matches Err((e, m)) && e == SharedError::Type && m@ == "map keys must be int or string"@,
        },
        match pair_outcome(is_array, parts@) {
            Ok((k, v)) => r matches Ok((key, val)) && key@ == k && val@ == v,
            Err((e, m)) => r matches Err((e2, m2)) && e2 == e && m2@ == m,
        },
{
    if !is_array {
        return Err((SharedError::Type, String::from_str("setMany pair must be a [key, value] array")));
    }
    if parts.len() == 0 {
        return Err((SharedError::Type, String::from_str("setMany pair missing key")));
    }
    if parts.len() == 1 {
        return Err((SharedError::Type, String::from_str("setMany pair missing value")));
    }
    match raw_key_value_to_map_key(&parts[0]) {
        Ok(key) => Ok((key, parts[1].duplicate())),
        Err(e) => Err((e, String::from_str("map keys must be int or string"))),
    }
}

/// Accounted size of a key: its byte length for a string, a fixed cost
/// for an integer.
pub open spec fn key_size_of(k: KeyView) -> nat {
    match k {
        KeyView::Int(_) => INT_KEY_COST as nat,
        KeyView::Str(s) => s.len(),
    }
}

pub fn map_key_size(key: &MapKey) -> (n: usize)
    ensures
        n == key_size_of(key@),
{
    match key {
        MapKey::Int(_) => INT_KEY_COST,
        MapKey::Str(s) => s.len(),
    }
}

/// Accounted byte cost of one entry: 64 for the slot, 16 of key overhead,
/// the key size and the value size.
pub fn map_entry_cost_parts(key_size: usize, value_mem: usize) -> (c: isize)
    requires
        80 + key_size + value_mem <= isize::MAX,
    ensures
        c == 80 + key_size + value_mem,
{
    (64 + 16 + key_size + value_mem) as isize
}

/// Rejects a serialised value larger than the per-value cap.
pub fn enforce_value_size(serialized_len: usize, cap: usize) -> (r: Result<(), SharedError>)
    ensures
        r is Ok <==> serialized_len <= cap,
        r is Err ==> r == Err::<(), SharedError>(SharedError::ValueTooLarge),
{
    if serialized_len > cap {
        Err(SharedError::ValueTooLarge)
    } else {
        Ok(())
    }
}

/// Turns a decoded key value into a key: an integer, or a text or binary
/// string (both become binary-safe string keys); any other kind is a type
/// error.
pub fn raw_key_value_to_map_key(raw: &SharedValue) -> (r: Result<MapKey, SharedError>)
    ensures
        match raw@ {
            ValueView::Long(i) => r matches Ok(k) && k@ == KeyView::Int(i),
            ValueView::Str(s) => r matches Ok(k) && k@ == KeyView::Str(s),
            ValueView::Bytes(s) => r matches Ok(k) && k@ == KeyView::Str(s),
            _ => r == Err::<MapKey, SharedError>(SharedError::Type),
        },
{
    match raw {
        SharedValue::Long(i) => Ok(MapKey::Int(*i)),
        SharedValue::Str(s) => Ok(MapKey::from_bytes(s.as_slice())),
        SharedValue::Bytes(b) => Ok(MapKey::from_bytes(b.as_slice())),
        _ => Err(SharedError::Type),
    }
}

/// The store after writing `v` under `k`, or the error that refuses it:
/// null is a type error; a new key beyond the cap is a capacity error;
/// overwriting an existing key always succeeds.
pub open spec fn write_outcome(m: Map<KeyView, ValueView>, cap: Option<usize>, k: KeyView, v: ValueView) -> Result<Map<KeyView, ValueView>, SharedError> {
    if v is Null {
        Err(SharedError::Type)
    } else if m.dom().contains(k) {
        Ok(m.insert(k, v))
    } else if cap matches Some(max) && m.len() >= max {
        Err(SharedError::CapacityExceeded)
    } else {
        Ok(m.insert(k, v))
    }
}

/// `r` reports the previous value under `k` in `m` (none when absent).
pub open spec fn reports_prev(m: Map<KeyView, ValueView>, k: KeyView, r: Option<SharedValue>) -> bool {
    if m.dom().contains(k) {
        r matches Some(p) && p@ == m[k]
    } else {
        r is None
    }
}

/// Result of a compare-and-set on `m`: absence is the sentinel on both
/// sides. The swap applies when the current entry matches `expected`
/// (present and content-equal, or absent and `expected` none); then `new`
/// is written (or, when none, the key is removed). A null `new` is a type
/// error; writing a new key beyond the cap is a capacity error.
pub open spec fn cas_outcome(m: Map<KeyView, ValueView>, cap: Option<usize>, k: KeyView,
    expected: Option<ValueView>, new: Option<ValueView>) -> Result<(bool, Map<KeyView, ValueView>), SharedError> {
    if new matches Some(v) && v is Null {
        Err(SharedError::Type)
    } else if m.dom().contains(k) {
        if expected matches Some(e) && content_eq(m[k], e) {
            match new {
                Some(v) => Ok((true, m.insert(k, v))),
                None => Ok((true, m.remove(k))),
            }
        } else {
            Ok((false, m))
        }
    } else if expected is Some {
        Ok((false, m))
    } else {
        match new {
            None => Ok((true, m)),
            Some(v) => if cap matches Some(max) && m.len() >= max {
                Err(SharedError::CapacityExceeded)
            } else {
                Ok((true, m.insert(k, v)))
            },
        }
    }
}

/// The store after writing each pair of `s` in order, or the first
/// refusal with the number of pairs written before it.
pub open spec fn apply_writes(m: Map<KeyView, ValueView>, cap: Option<usize>, s: Seq<(KeyView, ValueView)>) -> Result<Map<KeyView, ValueView>, (SharedError, nat)>
    decreases s.len(),
{
    if s.len() == 0 {
        Ok(m)
    } else {
        match apply_writes(m, cap, s.drop_last()) {
            Err(e) => Err(e),
            Ok(m2) => match write_outcome(m2, cap, s.last().0, s.last().1) {
                Ok(m3) => Ok(m3),
                Err(e) => Err((e, (s.len() - 1) as nat)),
            },
        }
    }
}

/// Abstract view of a batch of pairs.
pub open spec fn batch_view(b: Seq<(MapKey, SharedValue)>) -> Seq<(KeyView, ValueView)> {
    b.map_values(|p: (MapKey, SharedValue)| (p.0@, p.1@))
}

pub open spec fn opt_view(o: Option<SharedValue>) -> Option<ValueView> {
    match o {
        Some(v) => Some(v@),
        None => None,
    }
}

/// Once a batch is refused at some prefix, the whole batch is refused the
/// same way.
pub proof fn lemma_apply_writes_stops(m: Map<KeyView, ValueView>, cap: Option<usize>, s: Seq<(KeyView, ValueView)>, n: int)
    requires
        0 <= n <= s.len(),
        apply_writes(m, cap, s.take(n)) is Err,
    ensures
        apply_writes(m, cap, s) == apply_writes(m, cap, s.take(n)),
    decreases s.len() - n,
{
    if n < s.len() {
        assert(s.take(n + 1).drop_last() =~= s.take(n));
        lemma_apply_writes_stops(m, cap, s, n + 1);
    } else {
        assert(s.take(n) =~= s);
    }
}

/// One key => serialised-value pair taken from an iterable argument.
pub struct IterPair {
    pub key: MapKey,
    pub value: Vec<u8>,
}

/// Wire form of a key as a scalar: tag 3 and the integer's 8 little-endian
/// bytes, or tag 5, the 32-bit length and the bytes.
pub open spec fn key_scalar_bytes(k: KeyView) -> Seq<u8> {
    match k {
        KeyView::Int(n) => seq![3u8] + le64(n as u64),
        KeyView::Str(s) => seq![5u8] + le32(s.len() as u32) + s,
    }
}

fn push_key_scalar(buf: &mut Vec<u8>, k: &MapKey)
    ensures
        final(buf)@ == old(buf)@ + key_scalar_bytes(k@),
{
    match k {
        MapKey::Int(n) => {
            buf.push(3u8);
            push_le64(buf, *n as u64);
            assert(buf@ =~= old(buf)@ + key_scalar_bytes(k@));
        }
        MapKey::Str(s) => {
            buf.push(5u8);
            push_le32(buf, s.len() as u32);
            push_all(buf, s.as_slice());
            assert(buf@ =~= old(buf)@ + key_scalar_bytes(k@));
        }
    }
}

/// Entries `0..n` of a keys array: index-key tag 0, the index as 8
/// little-endian bytes, the key scalar.
pub open spec fn keys_entries(ks: Seq<KeyView>, n: nat) -> Seq<u8>
    decreases n,
{
    if n == 0 {
        Seq::empty()
    } else {
        keys_entries(ks, (n - 1) as nat) + seq![0u8] + le64((n - 1) as u64)
            + key_scalar_bytes(ks[n - 1])
    }
}

pub open spec fn keys_view(ks: Seq<MapKey>) -> Seq<KeyView> {
    ks.map_values(|k: MapKey| k@)
}

/// Serialised array of the keys (array tag 6, 32-bit count, entries).
pub open spec fn keys_portbuf(ks: Seq<KeyView>) -> Seq<u8> {
    seq![6u8] + le32(ks.len() as u32) + keys_entries(ks, ks.len())
}

pub fn encode_keys_portbuf(keys: &[MapKey]) -> (buf: Vec<u8>)
    ensures
        buf@ == keys_portbuf(keys_view(keys@)),
{
    let ghost kv = keys_view(keys@);
    let mut buf: Vec<u8> = Vec::new();
    buf.push(6u8);
    push_le32(&mut buf, keys.len() as u32);
    let mut i: usize = 0;
    while i < keys.len()
        invariant
            i <= keys@.len(),
            kv == keys_view(keys@),
            buf@ == seq![6u8] + le32(keys@.len() as u32) + keys_entries(kv, i as nat),
        decreases keys@.len() - i,
    {
        let ghost before = buf@;
        buf.push(0u8);
        push_le64(&mut buf, i as u64);
        push_key_scalar(&mut buf, &keys[i]);
        assert(kv[i as int] == keys@[i as int]@);
        assert(buf@ =~= seq![6u8] + le32(keys@.len() as u32) + keys_entries(kv, (i + 1) as nat));
        i = i + 1;
    }
    buf
}

/// Entries `0..n` of a pairs array: each pair is an index-keyed entry
/// holding a two-element array {0: key scalar, 1: serialised value}.
pub open spec fn pairs_entries(ps: Seq<(KeyView, Seq<u8>)>, n: nat) -> Seq<u8>
    decreases n,
{
    if n == 0 {
        Seq::empty()
    } else {
        pairs_entries(ps, (n - 1) as nat)
            + seq![0u8] + le64((n - 1) as u64)
            + seq![6u8] + le32(2u32)
            + seq![0u8] + le64(0u64) + key_scalar_bytes(ps[n - 1].0)
            + seq![0u8] + le64(1u64) + ps[n - 1].1
    }
}

pub open spec fn pairs_view(ps: Seq<IterPair>) -> Seq<(KeyView, Seq<u8>)> {
    ps.map_values(|p: IterPair| (p.key@, p.value@))
}

/// Serialised array of the pairs (array tag 6, 32-bit count, entries).
pub open spec fn pairs_portbuf(ps: Seq<(KeyView, Seq<u8>)>) -> Seq<u8> {
    seq![6u8] + le32(ps.len() as u32) + pairs_entries(ps, ps.len())
}

pub fn encode_pairs_portbuf(pairs: &[IterPair]) -> (buf: Vec<u8>)
    ensures
        buf@ == pairs_portbuf(pairs_view(pairs@)),
{
    let ghost pv = pairs_view(pairs@);
    let mut buf: Vec<u8> = Vec::new();
    buf.push(6u8);
    push_le32(&mut buf, pairs.len() as u32);
    let mut i: usize = 0;
    while i < pairs.len()
        invariant
            i <= pairs@.len(),
            pv == pairs_view(pairs@),
            buf@ == seq![6u8] + le32(pairs@.len() as u32) + pairs_entries(pv, i as nat),
        decreases pairs@.len() - i,
    {
        buf.push(0u8);
        push_le64(&mut buf, i as u64);
        buf.push(6u8);
        push_le32(&mut buf, 2u32);
        buf.push(0u8);
        push_le64(&mut buf, 0u64);
        push_key_scalar(&mut buf, &pairs[i].key);
        buf.push(0u8);
        push_le64(&mut buf, 1u64);
        push_all(&mut buf, pairs[i].value.as_slice());
        assert(pv[i as int] == (pairs@[i as int].key@, pairs@[i as int].value@));
        assert(buf@ =~= seq![6u8] + le32(pairs@.len() as u32) + pairs_entries(pv, (i + 1) as nat));
        i = i + 1;
    }
    buf
}

/// A concurrent-style key → value store.
pub struct MapInner {
    entries: DashMap<MapKey, SharedValue>,
    max_entries: Option<usize>,
    self_id: Option<u64>,
}

impl MapInner {
    /// The store's invariant: finitely many entries, none of them null, and
    /// no more than the cap.
    pub closed spec fn wf(&self) -> bool {
        &&& map_entries(self.entries).dom().finite()
        &&& forall|k: KeyView| #[trigger] map_entries(self.entries).dom().contains(k)
                ==> !(map_entries(self.entries)[k] is Null)
        &&& (self.max_entries matches Some(max) ==> map_entries(self.entries).len() <= max)
    }

    /// The stored entries.
    pub closed spec fn contents(&self) -> Map<KeyView, ValueView> {
        map_entries(self.entries)
    }

    /// The entry cap, if any.
    pub closed spec fn cap(&self) -> Option<usize> {
        self.max_entries
    }

    pub closed spec fn bound_id(&self) -> Option<u64> {
        self.self_id
    }

    /// What well-formedness gives a caller: finitely many entries, none of
    /// them null, and no more than the cap.
    pub proof fn lemma_wf(&self)
        requires
            self.wf(),
        ensures
            self.contents().dom().finite(),
            forall|k: KeyView| #[trigger] self.contents().dom().contains(k) ==> !(self.contents()[k] is Null),
            self.cap() matches Some(max) ==> self.contents().len() <= max,
    {
    }

    pub fn new(max_entries: Option<usize>) -> (m: Self)
        ensures
            m.wf(),
            m.contents() == Map::<KeyView, ValueView>::empty(),
            m.cap() == max_entries,
            m.bound_id() is None,
    {
        let entries = entries_new();
        proof {
            assert(map_entries(entries).dom() =~= Set::<KeyView>::empty());
        }
        MapInner { entries, max_entries, self_id: None }
    }

    pub fn max_entries(&self) -> (r: Option<usize>)
        requires
            self.wf(),
        ensures
            r == self.cap(),
    {
        self.max_entries
    }

    /// Binds the registry id; only the first bind takes effect.
    pub fn bind_id(&mut self, id: u64)
        requires
            old(self).wf(),
        ensures
            final(self).wf(),
            final(self).contents() == old(self).contents(),
            final(self).cap() == old(self).cap(),
            final(self).bound_id() == (if old(self).bound_id() is None { Some(id) } else { old(self).bound_id() }),
    {
        if self.self_id.is_none() {
            self.self_id = Some(id);
        }
    }

    pub fn self_id(&self) -> (r: Option<u64>)
        requires
            self.wf(),
        ensures
            r == self.bound_id(),
    {
        self.self_id
    }

    /// Number of entries.
    pub fn count(&self) -> (n: usize)
        requires
            self.wf(),
        ensures
            n == self.contents().len(),
            self.cap() matches Some(max) ==> n <= max,
    {
        entries_len(&self.entries)
    }

    pub fn get(&self, key: &MapKey) -> (r: Option<SharedValue>)
        requires
            self.wf(),
        ensures
            r is Some <==> self.contents().dom().contains(key@),
            r matches Some(v) ==> v@ == self.contents()[key@],
    {
        entries_get(&self.entries, key)
    }

    /// Shared write path of `set` / `swap`.
    fn write(&mut self, key: MapKey, value: SharedValue) -> (r: Result<Option<SharedValue>, SharedError>)
        requires
            old(self).wf(),
        ensures
            final(self).wf(),
            final(self).cap() == old(self).cap(),
            final(self).bound_id() == old(self).bound_id(),
            match write_outcome(old(self).contents(), old(self).cap(), key@, value@) {
                Ok(m) => final(self).contents() == m && (r matches Ok(prev) && reports_prev(old(self).contents(), key@, prev)),
                Err(e) => r == Err::<Option<SharedValue>, SharedError>(e) && final(self).contents() == old(self).contents(),
            },
    {
        if value.is_null() {
            return Err(SharedError::Type);
        }
        let present = entries_get(&self.entries, &key).is_some();
        if !present {
            if let Some(max) = self.max_entries {
                if entries_len(&self.entries) >= max {
                    return Err(SharedError::CapacityExceeded);
                }
            }
        }
        let ghost old_m = map_entries(self.entries);
        let ghost kv = key@;
        let ghost vv = value@;
        let prev = entries_insert(&mut self.entries, key, value);
        proof {
            if !present {
                assert(map_entries(self.entries).dom() =~= old_m.dom().insert(kv));
            } else {
                assert(map_entries(self.entries).dom() =~= old_m.dom());
            }
        }
        Ok(prev)
    }

    /// Insert or replace; returns the previous value. Null is refused; a new
    /// key beyond the cap is refused; an overwrite always succeeds.
    pub fn set(&mut self, key: MapKey, value: SharedValue) -> (r: Result<Option<SharedValue>, SharedError>)
        requires
            old(self).wf(),
        ensures
            final(self).wf(),
            final(self).cap() == old(self).cap(),
            final(self).bound_id() == old(self).bound_id(),
            match write_outcome(old(self).contents(), old(self).cap(), key@, value@) {
                Ok(m) => final(self).contents() == m && (r matches Ok(prev) && reports_prev(old(self).contents(), key@, prev)),
                Err(e) => r == Err::<Option<SharedValue>, SharedError>(e) && final(self).contents() == old(self).contents(),
            },
    {
        self.write(key, value)
    }

    /// Overwrite and return the previous value (none when absent); same
    /// checks as `set`.
    pub fn swap(&mut self, key: MapKey, value: SharedValue) -> (r: Result<Option<SharedValue>, SharedError>)
        requires
            old(self).wf(),
        ensures
            final(self).wf(),
            final(self).cap() == old(self).cap(),
            final(self).bound_id() == old(self).bound_id(),
            match write_outcome(old(self).contents(), old(self).cap(), key@, value@) {
                Ok(m) => final(self).contents() == m && (r matches Ok(prev) && reports_prev(old(self).contents(), key@, prev)),
                Err(e) => r == Err::<Option<SharedValue>, SharedError>(e) && final(self).contents() == old(self).contents(),
            },
    {
        self.write(key, value)
    }

    /// Insert only when absent: returns the current value when present
    /// (store unchanged) and none when the insert happened.
    pub fn set_if_absent(&mut self, key: MapKey, value: SharedValue) -> (r: Result<Option<SharedValue>, SharedError>)
        requires
            old(self).wf(),
        ensures
            final(self).wf(),
            final(self).cap() == old(self).cap(),
            final(self).bound_id() == old(self).bound_id(),
            value@ is Null ==> r == Err::<Option<SharedValue>, SharedError>(SharedError::Type)
                && final(self).contents() == old(self).contents(),
            !(value@ is Null) && old(self).contents().dom().contains(key@) ==>
                (r matches Ok(Some(cur)) && cur@ == old(self).contents()[key@])
                && final(self).contents() == old(self).contents(),
            !(value@ is Null) && !old(self).contents().dom().contains(key@) ==> match write_outcome(old(self).contents(), old(self).cap(), key@, value@) {
                Ok(m) => final(self).contents() == m && r == Ok::<Option<SharedValue>, SharedError>(None),
                Err(e) => r == Err::<Option<SharedValue>, SharedError>(e) && final(self).contents() == old(self).contents(),
            },
    {
        if value.is_null() {
            return Err(SharedError::Type);
        }
        match entries_get(&self.entries, &key) {
            Some(cur) => Ok(Some(cur)),
            None => {
                match self.write(key, value) {
                    Ok(_) => Ok(None),
                    Err(e) => Err(e),
                }
            }
        }
    }

    /// Compare-and-set with absence as the sentinel on both sides; see
    /// `cas_outcome`.
    pub fn compare_and_set(&mut self, key: MapKey, expected: Option<SharedValue>, new: Option<SharedValue>) -> (r: Result<bool, SharedError>)
        requires
            old(self).wf(),
        ensures
            final(self).wf(),
            final(self).cap() == old(self).cap(),
            final(self).bound_id() == old(self).bound_id(),
            match cas_outcome(old(self).contents(), old(self).cap(), key@, opt_view(expected), opt_view(new)) {
                Ok((swapped, m)) => r == Ok::<bool, SharedError>(swapped) && final(self).contents() == m,
                Err(e) => r == Err::<bool, SharedError>(e) && final(self).contents() == old(self).contents(),
            },
    {
        if let Some(v) = &new {
            if v.is_null() {
                return Err(SharedError::Type);
            }
        }
        match entries_get(&self.entries, &key) {
            Some(cur) => {
                let matches = match &expected {
                    Some(e) => sv_content_eq(&cur, e),
                    None => false,
                };
                if !matches {
                    return Ok(false);
                }
                match new {
                    Some(v) => {
                        let ghost old_m = map_entries(self.entries);
                        let ghost kv = key@;
                        let _ = entries_insert(&mut self.entries, key, v);
                        proof {
                            assert(map_entries(self.entries).dom() =~= old_m.dom());
                        }
                    }
                    None => {
                        let ghost old_m = map_entries(self.entries);
                        let _ = entries_remove(&mut self.entries, &key);
                        proof {
                            assert(map_entries(self.entries).dom() =~= old_m.dom().remove(key@));
                        }
                    }
                }
                Ok(true)
            }
            None => {
                if expected.is_some() {
                    return Ok(false);
                }
                match new {
                    None => Ok(true),
                    Some(v) => {
                        match self.write(key, v) {
                            Ok(_) => Ok(true),
                            Err(e) => Err(e),
                        }
                    }
                }
            }
        }
    }

    /// Writes each pair in order with the checks of `set`. On the first
    /// refusal the earlier writes stay applied and the error comes back with
    /// the number of pairs written; otherwise the count of pairs.
    pub fn set_many_batch(&mut self, batch: Vec<(MapKey, SharedValue)>) -> (r: Result<usize, (SharedError, usize)>)
        requires
            old(self).wf(),
        ensures
            final(self).wf(),
            final(self).cap() == old(self).cap(),
            final(self).bound_id() == old(self).bound_id(),
            match apply_writes(old(self).contents(), old(self).cap(), batch_view(batch@)) {
                Ok(m) => r == Ok::<usize, (SharedError, usize)>(batch@.len() as usize) && final(self).contents() == m,
                Err((e, n)) => (r matches Err((e2, n2)) && e2 == e && n2 == n)
                    && apply_writes(old(self).contents(), old(self).cap(), batch_view(batch@).take(n as int))
                        == Ok::<Map<KeyView, ValueView>, (SharedError, nat)>(final(self).contents()),
            },
    {
        let ghost m0 = self.contents();
        let ghost cap = self.cap();
        let ghost bv = batch_view(batch@);
        let mut i: usize = 0;
        while i < batch.len()
            invariant
                self.wf(),
                i <= batch@.len(),
                self.cap() == cap,
                self.bound_id() == old(self).bound_id(),
                m0 == old(self).contents(),
                cap == old(self).cap(),
                bv == batch_view(batch@),
                apply_writes(m0, cap, bv.take(i as int)) == Ok::<Map<KeyView, ValueView>, (SharedError, nat)>(self.contents()),
            decreases batch@.len() - i,
        {
            let k = batch[i].0.duplicate();
            let v = batch[i].1.duplicate();
            let ghost before = self.contents();
            let res = self.write(k, v);
            proof {
                assert(bv.take((i + 1) as int).drop_last() =~= bv.take(i as int));
                assert(bv.take((i + 1) as int).last() == bv[i as int]);
                assert(bv[i as int] == (batch@[i as int].0@, batch@[i as int].1@));
            }
            match res {
                Ok(_) => {}
                Err(e) => {
                    proof {
                        assert(apply_writes(m0, cap, bv.take((i + 1) as int)) == Err::<Map<KeyView, ValueView>, (SharedError, nat)>((e, i as nat)));
                        lemma_apply_writes_stops(m0, cap, bv, (i + 1) as int);
                    }
                    return Err((e, i));
                }
            }
            i = i + 1;
        }
        proof {
            assert(bv.take(batch@.len() as int) =~= bv);
        }
        Ok(batch.len())
    }

    /// `set` behind the reference-cycle gate. `closes_cycle` is the cycle
    /// walker's verdict on the shared references `value` carries (the walk
    /// reads the registry, which a store does not hold); the walk only runs
    /// for a store bound to its registry id. Null is refused first, then a
    /// value that would close a cycle, both before any write.
    pub fn set_after_cycle_check(&mut self, key: MapKey, value: SharedValue, closes_cycle: bool)
        -> (r: Result<Option<SharedValue>, SharedError>)
        requires
            old(self).wf(),
        ensures
            final(self).wf(),
            final(self).cap() == old(self).cap(),
            final(self).bound_id() == old(self).bound_id(),
            !(value@ is Null) && closes_cycle && old(self).bound_id() is Some ==> {
                &&& r == Err::<Option<SharedValue>, SharedError>(SharedError::Cycle)
                &&& final(self).contents() == old(self).contents()
            },
            !(!(value@ is Null) && closes_cycle && old(self).bound_id() is Some) ==>
                match write_outcome(old(self).contents(), old(self).cap(), key@, value@) {
                    Ok(m) => final(self).contents() == m && (r matches Ok(prev) && reports_prev(old(self).contents(), key@, prev)),
                    Err(e) => r == Err::<Option<SharedValue>, SharedError>(e) && final(self).contents() == old(self).contents(),
                },
    {
        if !value.is_null() && closes_cycle && self.self_id.is_some() {
            return Err(SharedError::Cycle);
        }
        self.set(key, value)
    }

    /// `swap` behind the reference-cycle gate: a non-null value that would
    /// close a cycle (the walker's verdict, for a bound store) is refused
    /// before any write.
    pub fn swap_after_cycle_check(&mut self, key: MapKey, value: SharedValue, closes_cycle: bool)
        -> (r: Result<Option<SharedValue>, SharedError>)
        requires
            old(self).wf(),
        ensures
            final(self).wf(),
            final(self).cap() == old(self).cap(),
            final(self).bound_id() == old(self).bound_id(),
            !(value@ is Null) && closes_cycle && old(self).bound_id() is Some ==> {
                &&& r == Err::<Option<SharedValue>, SharedError>(SharedError::Cycle)
                &&& final(self).contents() == old(self).contents()
            },
            !(!(value@ is Null) && closes_cycle && old(self).bound_id() is Some) ==>
                match write_outcome(old(self).contents(), old(self).cap(), key@, value@) {
                    Ok(m) => final(self).contents() == m && (r matches Ok(prev) && reports_prev(old(self).contents(), key@, prev)),
                    Err(e) => r == Err::<Option<SharedValue>, SharedError>(e) && final(self).contents() == old(self).contents(),
                },
    {
        if !value.is_null() && closes_cycle && self.self_id.is_some() {
            return Err(SharedError::Cycle);
        }
        self.swap(key, value)
    }

    /// `set_if_absent` behind the reference-cycle gate: null is refused
    /// first, then a value that would close a cycle (the walker's verdict,
    /// for a bound store), both before the store is looked at.
    pub fn set_if_absent_after_cycle_check(&mut self, key: MapKey, value: SharedValue, closes_cycle: bool)
        -> (r: Result<Option<SharedValue>, SharedError>)
        requires
            old(self).wf(),
        ensures
            final(self).wf(),
            final(self).cap() == old(self).cap(),
            final(self).bound_id() == old(self).bound_id(),
            value@ is Null ==> r == Err::<Option<SharedValue>, SharedError>(SharedError::Type)
                && final(self).contents() == old(self).contents(),
            !(value@ is Null) && closes_cycle && old(self).bound_id() is Some ==> {
                &&& r == Err::<Option<SharedValue>, SharedError>(SharedError::Cycle)
                &&& final(self).contents() == old(self).contents()
            },
            !(value@ is Null) && !(closes_cycle && old(self).bound_id() is Some) && old(self).contents().dom().contains(key@) ==>
                (r matches Ok(Some(cur)) && cur@ == old(self).contents()[key@])
                && final(self).contents() == old(self).contents(),
            !(value@ is Null) && !(closes_cycle && old(self).bound_id() is Some) && !old(self).contents().dom().contains(key@) ==>
                match write_outcome(old(self).contents(), old(self).cap(), key@, value@) {
                    Ok(m) => final(self).contents() == m && r == Ok::<Option<SharedValue>, SharedError>(None),
                    Err(e) => r == Err::<Option<SharedValue>, SharedError>(e) && final(self).contents() == old(self).contents(),
                },
    {
        if !value.is_null() && closes_cycle && self.self_id.is_some() {
            return Err(SharedError::Cycle);
        }
        self.set_if_absent(key, value)
    }

    /// `compare_and_set` behind the reference-cycle gate: a non-null new
    /// value that would close a cycle (the walker's verdict, for a bound
    /// store) is refused before the store is looked at.
    pub fn compare_and_set_after_cycle_check(
        &mut self,
        key: MapKey,
        expected: Option<SharedValue>,
        new: Option<SharedValue>,
        closes_cycle: bool,
    ) -> (r: Result<bool, SharedError>)
        requires
            old(self).wf(),
        ensures
            final(self).wf(),
            final(self).cap() == old(self).cap(),
            final(self).bound_id() == old(self).bound_id(),
            (new matches Some(v) && !(v@ is Null)) && closes_cycle && old(self).bound_id() is Some ==> {
                &&& r == Err::<bool, SharedError>(SharedError::Cycle)
                &&& final(self).contents() == old(self).contents()
            },
            !((new matches Some(v) && !(v@ is Null)) && closes_cycle && old(self).bound_id() is Some) ==>
                match cas_outcome(old(self).contents(), old(self).cap(), key@, opt_view(expected), opt_view(new)) {
                    Ok((swapped, m)) => r == Ok::<bool, SharedError>(swapped) && final(self).contents() == m,
                    Err(e) => r == Err::<bool, SharedError>(e) && final(self).contents() == old(self).contents(),
                },
    {
        let gated = match &new {
            Some(v) => !v.is_null() && closes_cycle && self.self_id.is_some(),
            None => false,
        };
        if gated {
            return Err(SharedError::Cycle);
        }
        self.compare_and_set(key, expected, new)
    }

    /// `set_many_batch` behind the reference-cycle gate. The walker runs
    /// once over every shared reference in the batch; `closes_cycle` is its
    /// verdict. For a bound store a cycle refuses the whole batch, with no
    /// pair written; otherwise the batch is written as `set_many_batch`
    /// writes it.
    pub fn set_many_after_cycle_check(&mut self, batch: Vec<(MapKey, SharedValue)>, closes_cycle: bool)
        -> (r: Result<usize, (SharedError, usize)>)
        requires
            old(self).wf(),
        ensures
            final(self).wf(),
            final(self).cap() == old(self).cap(),
            final(self).bound_id() == old(self).bound_id(),
            closes_cycle && old(self).bound_id() is Some ==> {
                &&& r == Err::<usize, (SharedError, usize)>((SharedError::Cycle, 0))
                &&& final(self).contents() == old(self).contents()
            },
            !(closes_cycle && old(self).bound_id() is Some) ==>
                match apply_writes(old(self).contents(), old(self).cap(), batch_view(batch@)) {
                    Ok(m) => r == Ok::<usize, (SharedError, usize)>(batch@.len() as usize) && final(self).contents() == m,
                    Err((e, n)) => (r matches Err((e2, n2)) && e2 == e && n2 == n)
                        && apply_writes(old(self).contents(), old(self).cap(), batch_view(batch@).take(n as int))
                            == Ok::<Map<KeyView, ValueView>, (SharedError, nat)>(final(self).contents()),
                },
    {
        if closes_cycle && self.self_id.is_some() {
            return Err((SharedError::Cycle, 0));
        }
        self.set_many_batch(batch)
    }

    /// Removes the entry and returns its value (none when absent).
    pub fn pop(&mut self, key: &MapKey) -> (r: Option<SharedValue>)
        requires
            old(self).wf(),
        ensures
            final(self).wf(),
            final(self).cap() == old(self).cap(),
            final(self).bound_id() == old(self).bound_id(),
            final(self).contents() == old(self).contents().remove(key@),
            reports_prev(old(self).contents(), key@, r),
    {
        let ghost old_m = map_entries(self.entries);
        let r = entries_remove(&mut self.entries, key);
        proof {
            assert(map_entries(self.entries).dom() =~= old_m.dom().remove(key@));
            if old_m.dom().contains(key@) {
                assert(old_m.dom().remove(key@).len() == old_m.dom().len() - 1);
            }
        }
        r
    }

    /// Removes the entry; returns whether it existed.
    pub fn remove(&mut self, key: &MapKey) -> (existed: bool)
        requires
            old(self).wf(),
        ensures
            final(self).wf(),
            final(self).cap() == old(self).cap(),
            final(self).bound_id() == old(self).bound_id(),
            final(self).contents() == old(self).contents().remove(key@),
            existed == old(self).contents().dom().contains(key@),
    {
        self.pop(key).is_some()
    }

    /// Drops every entry; returns how many there were.
    pub fn clear(&mut self) -> (removed: usize)
        requires
            old(self).wf(),
        ensures
            final(self).wf(),
            final(self).cap() == old(self).cap(),
            final(self).bound_id() == old(self).bound_id(),
            final(self).contents() == Map::<KeyView, ValueView>::empty(),
            removed == old(self).contents().len(),
    {
        let n = entries_len(&self.entries);
        entries_clear(&mut self.entries);
        proof {
            assert(map_entries(self.entries).dom() =~= Set::<KeyView>::empty());
        }
        n
    }

    /// The snapshot shown for debugging: the number of entries.
    pub fn debug_snapshot(&self) -> (v: SharedValue)
        requires
            self.wf(),
        ensures
            v@ == ValueView::Long(self.contents().len() as i64),
    {
        let n = entries_len(&self.entries);
        SharedValue::Long(n as i64)
    }

    /// Every key exactly once, in unspecified order.
    pub fn all_keys(&self) -> (ks: Vec<MapKey>)
        requires
            self.wf(),
        ensures
            forall|i: int| 0 <= i < ks@.len() ==> self.contents().dom().contains(#[trigger] ks@[i]@),
            forall|k: KeyView| self.contents().dom().contains(k) ==> exists|i: int| 0 <= i < ks@.len() && #[trigger] ks@[i]@ == k,
            forall|i: int, j: int| 0 <= i < j < ks@.len() ==> ks@[i]@ != ks@[j]@,
    {
        entries_keys(&self.entries)
    }
}


/// The key a decoded key value stands for, if it is an integer or a string.
pub open spec fn key_of_value(v: ValueView) -> Option<KeyView> {
    match v {
        ValueView::Long(i) => Some(KeyView::Int(i)),
        ValueView::Str(s) => Some(KeyView::Str(s)),
        ValueView::Bytes(s) => Some(KeyView::Str(s)),
        _ => None,
    }
}

/// Removing keys one after the other: the store left, how many of them
/// were present when removed, and whether every value was a key (removal
/// stops at the first that is not).
pub open spec fn remove_keys(m: Map<KeyView, ValueView>, ks: Seq<ValueView>) -> (Map<KeyView, ValueView>, nat, bool)
    decreases ks.len(),
{
    if ks.len() == 0 {
        (m, 0, true)
    } else {
        match key_of_value(ks[0]) {
            None => (m, 0, false),
            Some(k) => {
                let rest = remove_keys(m.remove(k), ks.drop_first());
                (rest.0, rest.1 + (if m.dom().contains(k) { 1nat } else { 0nat }), rest.2)
            },
        }
    }
}

/// The views of a sequence of values.
pub open spec fn value_views(s: Seq<SharedValue>) -> Seq<ValueView> {
    s.map_values(|v: SharedValue| v@)
}

/// Key kind tags at the engine boundary.
pub const KEY_KIND_INT: i32 = 0;
pub const KEY_KIND_STR: i32 = 1;

/// A key from its boundary form: an integer key, or a binary-safe string
/// key from its bytes; any other kind tag is refused.
pub fn decode_map_key(kind: i32, key_int: i64, bytes: &[u8]) -> (r: Result<MapKey, (SharedError, String)>)
    ensures
        kind == KEY_KIND_INT ==> (r matches Ok(k) && k@ == KeyView::Int(key_int)),
        kind == KEY_KIND_STR ==> (r matches Ok(k) && k@ == KeyView::Str(bytes@)),
        kind != KEY_KIND_INT && kind != KEY_KIND_STR ==> (r matches Err((e, m)) && e == SharedError::Generic
            && m@ == "invalid map key kind (expected 0=int or 1=str)"@),
{
    if kind == KEY_KIND_INT {
        Ok(MapKey::Int(key_int))
    } else if kind == KEY_KIND_STR {
        Ok(MapKey::from_bytes(bytes))
    } else {
        Err((SharedError::Generic, String::from_str("invalid map key kind (expected 0=int or 1=str)")))
    }
}

impl MapInner {
    /// Removes the entries of the given keys in order and counts those that
    /// were there; a value that is not a key stops the removal with a type
    /// error (the keys before it stay removed).
    pub fn remove_many(&mut self, keys: &Vec<SharedValue>) -> (r: Result<u64, SharedError>)
        requires
            old(self).wf(),
        ensures
            final(self).wf(),
            final(self).cap() == old(self).cap(),
            final(self).bound_id() == old(self).bound_id(),
            final(self).contents() == remove_keys(old(self).contents(), value_views(keys@)).0,
            remove_keys(old(self).contents(), value_views(keys@)).2 ==> r == Ok::<u64, SharedError>(
                remove_keys(old(self).contents(), value_views(keys@)).1 as u64),
            !remove_keys(old(self).contents(), value_views(keys@)).2 ==> r == Err::<u64, SharedError>(SharedError::Type),
    {
        let ghost ks = value_views(keys@);
        let ghost total = remove_keys(old(self).contents(), ks);
        let mut removed: u64 = 0;
        let mut i: usize = 0;
        proof {
            assert(ks.subrange(0, ks.len() as int) =~= ks);
        }
        while i < keys.len()
            invariant
                self.wf(),
                self.cap() == old(self).cap(),
                self.bound_id() == old(self).bound_id(),
                ks == value_views(keys@),
                total == remove_keys(old(self).contents(), ks),
                i <= keys@.len(),
                removed <= i,
                total.0 == remove_keys(self.contents(), ks.subrange(i as int, ks.len() as int)).0,
                total.1 == removed + remove_keys(self.contents(), ks.subrange(i as int, ks.len() as int)).1,
                total.2 == remove_keys(self.contents(), ks.subrange(i as int, ks.len() as int)).2,
            decreases keys@.len() - i,
        {
            let ghost tail = ks.subrange(i as int, ks.len() as int);
            proof {
                assert(tail[0] == keys@[i as int]@);
                assert(tail.drop_first() =~= ks.subrange(i + 1, ks.len() as int));
            }
            let k = match raw_key_value_to_map_key(&keys[i]) {
                Ok(k) => k,
                Err(e) => {
                    return Err(e);
                },
            };
            let ghost before = self.contents();
            if self.remove(&k) {
                removed = removed + 1;
            }
            i = i + 1;
        }
        proof {
            assert(ks.subrange(i as int, ks.len() as int) =~= Seq::<ValueView>::empty());
        }
        Ok(removed)
    }
}


/// Law: after a write succeeds, a read of the key gives back the value
/// written.
pub proof fn law_write_then_read(m: Map<KeyView, ValueView>, cap: Option<usize>, k: KeyView, v: ValueView)
    requires
        write_outcome(m, cap, k, v) is Ok,
    ensures
        write_outcome(m, cap, k, v)->Ok_0.dom().contains(k),
        write_outcome(m, cap, k, v)->Ok_0[k] == v,
        forall|j: KeyView| j != k ==> (#[trigger] write_outcome(m, cap, k, v)->Ok_0.dom().contains(j) <==> m.dom().contains(j)),
{
}

/// Law: null is never stored; absence is the only "none".
pub proof fn law_null_is_refused(m: Map<KeyView, ValueView>, cap: Option<usize>, k: KeyView)
    ensures
        write_outcome(m, cap, k, ValueView::Null) == Err::<Map<KeyView, ValueView>, SharedError>(SharedError::Type),
{
}

/// Law: overwriting a key that is present always succeeds, whatever the
/// cap; only a new key can be refused for capacity.
pub proof fn law_overwrite_always_fits(m: Map<KeyView, ValueView>, cap: Option<usize>, k: KeyView, v: ValueView)
    requires
        m.dom().contains(k),
        !(v is Null),
    ensures
        write_outcome(m, cap, k, v) == Ok::<Map<KeyView, ValueView>, SharedError>(m.insert(k, v)),
{
}

/// Law: a store within its cap stays within it after any write.
pub proof fn law_cap_is_kept(m: Map<KeyView, ValueView>, max: usize, k: KeyView, v: ValueView)
    requires
        m.dom().finite(),
        m.len() <= max,
    ensures
        write_outcome(m, Some(max), k, v) matches Ok(m2) ==> m2.dom().finite() && m2.len() <= max,
{
    if write_outcome(m, Some(max), k, v) is Ok {
        if m.dom().contains(k) {
            assert(m.insert(k, v).dom() =~= m.dom());
        } else {
            assert(m.insert(k, v).dom() =~= m.dom().insert(k));
        }
    }
}

/// Law: a compare-and-set from absent to absent succeeds and changes
/// nothing.
pub proof fn law_cas_absent_to_absent_is_noop(m: Map<KeyView, ValueView>, cap: Option<usize>, k: KeyView)
    requires
        !m.dom().contains(k),
    ensures
        cas_outcome(m, cap, k, None, None) == Ok::<(bool, Map<KeyView, ValueView>), SharedError>((true, m)),
{
}

/// Law: a compare-and-set that expects a value under a key the store does
/// not hold fails and leaves the store as it was, whatever it would have
/// written (a null new value aside, which is refused first).
pub proof fn law_cas_expected_but_absent_fails(
    m: Map<KeyView, ValueView>,
    cap: Option<usize>,
    k: KeyView,
    e: ValueView,
    new: Option<ValueView>,
)
    requires
        !m.dom().contains(k),
        !(new matches Some(v) && v is Null),
    ensures
        cas_outcome(m, cap, k, Some(e), new) == Ok::<(bool, Map<KeyView, ValueView>), SharedError>((false, m)),
{
}

/// Law: a batch that succeeds leaves each key it writes mapped to the last
/// value the batch gives that key (an existing entry is overwritten), and
/// every key the batch does not mention as it was.
#[verifier::spinoff_prover]
#[verifier::rlimit(40)]
pub proof fn law_batch_last_write_wins(
    m: Map<KeyView, ValueView>,
    cap: Option<usize>,
    s: Seq<(KeyView, ValueView)>,
    m2: Map<KeyView, ValueView>,
)
    requires
        apply_writes(m, cap, s) == Ok::<Map<KeyView, ValueView>, (SharedError, nat)>(m2),
    ensures
        forall|i: int| 0 <= i < s.len() && (forall|j: int| i < j < s.len() ==> (#[trigger] s[j]).0 != s[i].0)
            ==> m2.dom().contains((#[trigger] s[i]).0) && m2[s[i].0] == s[i].1,
        forall|k: KeyView| (forall|i: int| 0 <= i < s.len() ==> (#[trigger] s[i]).0 != k)
            ==> (#[trigger] m2.dom().contains(k)) == m.dom().contains(k) && (m.dom().contains(k) ==> m2[k] == m[k]),
    decreases s.len(),
{
    if s.len() == 0 {
        assert(m2 == m);
    } else {
        let init = s.drop_last();
        let p = s.last();
        let m1 = match apply_writes(m, cap, init) {
            Ok(x) => x,
            Err(_) => m,
        };
        assert(apply_writes(m, cap, init) == Ok::<Map<KeyView, ValueView>, (SharedError, nat)>(m1));
        assert(write_outcome(m1, cap, p.0, p.1) == Ok::<Map<KeyView, ValueView>, SharedError>(m2));
        assert(m2 == m1.insert(p.0, p.1));
        law_batch_last_write_wins(m, cap, init, m1);
        assert forall|i: int| 0 <= i < s.len() && (forall|j: int| i < j < s.len() ==> (#[trigger] s[j]).0 != s[i].0)
            implies m2.dom().contains((#[trigger] s[i]).0) && m2[s[i].0] == s[i].1 by {
            if i < s.len() - 1 {
                assert(s[s.len() - 1].0 != s[i].0);
                assert(init[i] == s[i]);
                assert forall|j: int| i < j < init.len() implies (#[trigger] init[j]).0 != init[i].0 by {
                    assert(init[j] == s[j]);
                }
                assert(m1.dom().contains(init[i].0) && m1[init[i].0] == init[i].1);
            }
        }
        assert forall|k: KeyView| (forall|i: int| 0 <= i < s.len() ==> (#[trigger] s[i]).0 != k)
            implies (#[trigger] m2.dom().contains(k)) == m.dom().contains(k) && (m.dom().contains(k) ==> m2[k] == m[k]) by {
            assert(s[s.len() - 1].0 != k);
            assert forall|i: int| 0 <= i < init.len() implies (#[trigger] init[i]).0 != k by {
                assert(init[i] == s[i]);
            }
        }
    }
}

/// The 64-bit integer whose little-endian bytes are the first eight of `b`.
pub open spec fn u64_from_le(b: Seq<u8>) -> u64 {
    (b[0] as u64) | ((b[1] as u64) << 8u64) | ((b[2] as u64) << 16u64) | ((b[3] as u64) << 24u64)
        | ((b[4] as u64) << 32u64) | ((b[5] as u64) << 40u64) | ((b[6] as u64) << 48u64) | ((b[7] as u64) << 56u64)
}

/// Law: an integer key is framed as tag 3 and eight bytes that read back,
/// little-endian and two's-complement, as the key itself, negative keys
/// included.
pub proof fn law_int_key_frame_round_trips(n: i64)
    ensures
        key_scalar_bytes(KeyView::Int(n)).len() == 9,
        key_scalar_bytes(KeyView::Int(n))[0] == 3u8,
        u64_from_le(key_scalar_bytes(KeyView::Int(n)).subrange(1, 9)) as i64 == n,
{
    let x = n as u64;
    let b = key_scalar_bytes(KeyView::Int(n)).subrange(1, 9);
    assert(b =~= le64(x));
    let b0 = (x & 0xff) as u8;
    let b1 = ((x >> 8u64) & 0xff) as u8;
    let b2 = ((x >> 16u64) & 0xff) as u8;
    let b3 = ((x >> 24u64) & 0xff) as u8;
    let b4 = ((x >> 32u64) & 0xff) as u8;
    let b5 = ((x >> 40u64) & 0xff) as u8;
    let b6 = ((x >> 48u64) & 0xff) as u8;
    let b7 = ((x >> 56u64) & 0xff) as u8;
    assert(b[0] == b0 && b[1] == b1 && b[2] == b2 && b[3] == b3);
    assert(b[4] == b4 && b[5] == b5 && b[6] == b6 && b[7] == b7);
    assert((b0 as u64) | ((b1 as u64) << 8u64) | ((b2 as u64) << 16u64) | ((b3 as u64) << 24u64)
        | ((b4 as u64) << 32u64) | ((b5 as u64) << 40u64) | ((b6 as u64) << 48u64) | ((b7 as u64) << 56u64) == x) by (bit_vector)
        requires
            b0 == (x & 0xff) as u8,
            b1 == ((x >> 8u64) & 0xff) as u8,
            b2 == ((x >> 16u64) & 0xff) as u8,
            b3 == ((x >> 24u64) & 0xff) as u8,
            b4 == ((x >> 32u64) & 0xff) as u8,
            b5 == ((x >> 40u64) & 0xff) as u8,
            b6 == ((x >> 48u64) & 0xff) as u8,
            b7 == ((x >> 56u64) & 0xff) as u8,
    ;
    assert(u64_from_le(b) == x);
    assert((x as i64) == n) by (bit_vector)
        requires
            x == n as u64,
    ;
}

/// Law: an integer key and a string key are never the same key, even when
/// the string spells the integer.
pub proof fn law_int_and_string_keys_distinct(i: i64, s: Seq<u8>)
    ensures
        KeyView::Int(i) != KeyView::Str(s),
{
}


/// The first position at or after `from` whose key the store holds, or the
/// end of the key list.
pub open spec fn next_present(m: Map<KeyView, ValueView>, ks: Seq<KeyView>, from: int) -> int
    decreases ks.len() - from,
{
    if from >= ks.len() {
        ks.len() as int
    } else if m.dom().contains(ks[from]) {
        from
    } else {
        next_present(m, ks, from + 1)
    }
}

/// A lazy walk over a snapshot of keys that yields the entries still
/// present when it reaches them.
pub struct KeyCursor {
    keys: Vec<MapKey>,
    index: usize,
    current: Option<SharedValue>,
}

impl KeyCursor {
    pub closed spec fn keys_spec(&self) -> Seq<KeyView> {
        keys_view(self.keys@)
    }

    pub closed spec fn index_spec(&self) -> int {
        self.index as int
    }

    pub closed spec fn current_spec(&self) -> Option<ValueView> {
        opt_view(self.current)
    }

    /// A cursor at the start of `keys`, positioned on nothing yet.
    pub fn new(keys: Vec<MapKey>) -> (c: Self)
        ensures
            c.keys_spec() == keys_view(keys@),
            c.index_spec() == 0,
            c.current_spec() is None,
    {
        KeyCursor { keys, index: 0, current: None }
    }

    /// Moves to the first key at or after the current position that the
    /// store still holds and caches its value; at the end of the keys the
    /// cursor holds nothing.
    pub fn advance_to_present(&mut self, map: &MapInner)
        requires
            map.wf(),
            old(self).index_spec() <= old(self).keys_spec().len(),
        ensures
            final(self).keys_spec() == old(self).keys_spec(),
            final(self).index_spec() == next_present(map.contents(), old(self).keys_spec(), old(self).index_spec()),
            final(self).index_spec() < final(self).keys_spec().len() ==>
                final(self).current_spec() == Some(map.contents()[final(self).keys_spec()[final(self).index_spec()]]),
            final(self).index_spec() >= final(self).keys_spec().len() ==> final(self).current_spec() is None,
    {
        self.current = None;
        let ghost ks = keys_view(self.keys@);
        let ghost start = self.index as int;
        while self.index < self.keys.len()
            invariant
                map.wf(),
                ks == keys_view(self.keys@),
                ks == old(self).keys_spec(),
                start == old(self).index_spec(),
                start <= self.index <= self.keys@.len(),
                next_present(map.contents(), ks, start) == next_present(map.contents(), ks, self.index as int),
                self.current is None,
            decreases self.keys@.len() - self.index,
        {
            proof {
                assert(ks[self.index as int] == self.keys@[self.index as int]@);
            }
            match map.get(&self.keys[self.index]) {
                Some(v) => {
                    self.current = Some(v);
                    return;
                },
                None => {
                    self.index = self.index + 1;
                },
            }
        }
    }

    /// Whether the cursor stands on an entry.
    pub fn valid(&self) -> (r: bool)
        ensures
            r == (self.current_spec() is Some),
    {
        self.current.is_some()
    }

    /// The key under the cursor, if it stands on an entry.
    pub fn key(&self) -> (r: Option<MapKey>)
        requires
            self.index_spec() < self.keys_spec().len() || self.current_spec() is None,
        ensures
            self.current_spec() is Some ==> (r matches Some(k) && k@ == self.keys_spec()[self.index_spec()]),
            self.current_spec() is None ==> r is None,
    {
        if self.current.is_some() {
            proof {
                assert(self.keys_spec()[self.index as int] == self.keys@[self.index as int]@);
            }
            Some(self.keys[self.index].duplicate())
        } else {
            None
        }
    }

    /// The cached value under the cursor.
    pub fn current(&self) -> (r: Option<SharedValue>)
        ensures
            opt_view(r) == self.current_spec(),
    {
        match &self.current {
            Some(v) => Some(v.duplicate()),
            None => None,
        }
    }

    /// Steps past the current position and moves on to the next present
    /// key.
    pub fn next(&mut self, map: &MapInner)
        requires
            map.wf(),
            old(self).index_spec() <= old(self).keys_spec().len(),
        ensures
            final(self).keys_spec() == old(self).keys_spec(),
            final(self).index_spec() == next_present(map.contents(), old(self).keys_spec(),
                if old(self).index_spec() < old(self).keys_spec().len() { old(self).index_spec() + 1 } else { old(self).index_spec() }),
            final(self).index_spec() < final(self).keys_spec().len() ==>
                final(self).current_spec() == Some(map.contents()[final(self).keys_spec()[final(self).index_spec()]]),
            final(self).index_spec() >= final(self).keys_spec().len() ==> final(self).current_spec() is None,
    {
        if self.index < self.keys.len() {
            self.index = self.index + 1;
        }
        self.advance_to_present(map);
    }
}


/// `String::from_utf8_lossy`: the text of a byte string, with each invalid
/// UTF-8 sequence replaced by U+FFFD.
pub uninterp spec fn lossy_text(b: Seq<u8>) -> Seq<char>;

/// `String::from_utf8_lossy(b).into_owned()`: the text is a function of the
/// bytes alone.
#[verifier::external_body]
fn lossy_string(b: &[u8]) -> (s: String)
    ensures
        s@ == lossy_text(b@),
{
    String::from_utf8_lossy(b).into_owned()
}

/// How a key is shown for introspection: an integer in decimal, a string
/// key as (lossy) text.
pub open spec fn key_display(k: KeyView) -> Seq<char> {
    match k {
        KeyView::Int(i) => crate::text::signed_decimal(i as int),
        KeyView::Str(s) => lossy_text(s),
    }
}

fn display_key(k: &MapKey) -> (s: String)
    ensures
        s@ == key_display(k@),
{
    match k {
        MapKey::Int(i) => {
            let mut s = String::new();
            crate::text::push_signed_decimal(&mut s, *i);
            proof {
                assert(s@ =~= key_display(k@));
            }
            s
        },
        MapKey::Str(b) => lossy_string(b.as_slice()),
    }
}

impl MapInner {
    /// Up to `limit` keys, each shown as text, for introspection; which
    /// keys come is up to the store's iteration order.
    pub fn sample_keys(&self, limit: usize) -> (r: Vec<String>)
        requires
            self.wf(),
        ensures
            r@.len() == (if limit <= self.contents().len() { limit as int } else { self.contents().len() as int }),
            exists|ks: Seq<KeyView>| #[trigger] shows_keys(self.contents(), r@, ks),
    {
        let keys = self.all_keys();
        proof {
            let kv = keys_view(keys@);
            assert forall|k: KeyView| self.contents().dom().contains(k) implies exists|i: int| 0 <= i < kv.len() && #[trigger] kv[i] == k by {
                let i = choose|i: int| 0 <= i < keys@.len() && #[trigger] keys@[i]@ == k;
                assert(kv[i] == k);
            }
            assert forall|i: int| 0 <= i < kv.len() implies self.contents().dom().contains(#[trigger] kv[i]) by {
                assert(kv[i] == keys@[i]@);
            }
            assert forall|i: int, j: int| 0 <= i < j < kv.len() implies kv[i] != kv[j] by {
                assert(kv[i] == keys@[i]@);
                assert(kv[j] == keys@[j]@);
            }
            lemma_distinct_keys_cover(self.contents(), kv);
        }
        let mut out: Vec<String> = Vec::new();
        let mut i: usize = 0;
        while i < keys.len() && i < limit
            invariant
                i <= keys@.len(),
                i <= limit,
                keys@.len() == self.contents().len(),
                out@.len() == i,
                forall|a: int| 0 <= a < i ==> #[trigger] out@[a]@ == key_display(keys@[a]@),
            decreases keys@.len() - i,
        {
            out.push(display_key(&keys[i]));
            i = i + 1;
        }
        proof {
            let ks = keys_view(keys@).take(i as int);
            assert(ks.len() == out@.len());
            assert forall|a: int| 0 <= a < ks.len() implies #[trigger] out@[a]@ == key_display(ks[a]) by {
                assert(ks[a] == keys@[a]@);
            }
            assert forall|a: int| 0 <= a < ks.len() implies self.contents().dom().contains(#[trigger] ks[a]) by {
                assert(ks[a] == keys@[a]@);
            }
            assert(shows_keys(self.contents(), out@, ks));
        }
        out
    }
}

/// `shown` are the displays of the distinct present keys `ks`, in order.
pub open spec fn shows_keys(m: Map<KeyView, ValueView>, shown: Seq<String>, ks: Seq<KeyView>) -> bool {
    &&& ks.len() == shown.len()
    &&& forall|i: int| 0 <= i < ks.len() ==> m.dom().contains(#[trigger] ks[i])
    &&& forall|i: int| 0 <= i < ks.len() ==> #[trigger] shown[i]@ == key_display(ks[i])
    &&& forall|i: int, j: int| 0 <= i < j < ks.len() ==> ks[i] != ks[j]
}

/// Distinct keys, all present, that cover every present key number exactly
/// as many as the store holds.
proof fn lemma_distinct_keys_cover(m: Map<KeyView, ValueView>, ks: Seq<KeyView>)
    requires
        m.dom().finite(),
        forall|i: int| 0 <= i < ks.len() ==> m.dom().contains(#[trigger] ks[i]),
        forall|k: KeyView| m.dom().contains(k) ==> exists|i: int| 0 <= i < ks.len() && #[trigger] ks[i] == k,
        forall|i: int, j: int| 0 <= i < j < ks.len() ==> ks[i] != ks[j],
    ensures
        ks.len() == m.len(),
{
    assert(ks.no_duplicates()) by {
        assert forall|i: int, j: int| 0 <= i < ks.len() && 0 <= j < ks.len() && i != j implies ks[i] != ks[j] by {
            if i < j {} else {}
        }
    }
    ks.unique_seq_to_set();
    assert(ks.to_set() =~= m.dom()) by {
        assert forall|k: KeyView| m.dom().contains(k) implies ks.to_set().contains(k) by {
            let i = choose|i: int| 0 <= i < ks.len() && ks[i] == k;
            assert(ks.contains(k));
        }
    }
}


/// The value a key is surfaced as: an integer, or a binary string (keys
/// are opaque bytes).
pub open spec fn key_value(k: KeyView) -> ValueView {
    match k {
        KeyView::Int(i) => ValueView::Long(i),
        KeyView::Str(s) => ValueView::Bytes(s),
    }
}

pub fn map_key_to_shared_value(k: &MapKey) -> (v: SharedValue)
    ensures
        v@ == key_value(k@),
{
    match k {
        MapKey::Int(i) => SharedValue::Long(*i),
        MapKey::Str(s) => SharedValue::Bytes(copy_key_bytes(s)),
    }
}

fn copy_key_bytes(v: &Vec<u8>) -> (r: Vec<u8>)
    ensures
        r@ == v@,
{
    let r = v.clone();
    assert(r@ =~= v@);
    r
}

/// The boundary form of a key: its kind tag, the integer (0 for a string
/// key) and the bytes (empty for an integer key).
pub fn key_to_ffi(key: &MapKey) -> (r: (i32, i64, Vec<u8>))
    ensures
        key@ matches KeyView::Int(i) ==> r.0 == KEY_KIND_INT && r.1 == i && r.2@.len() == 0,
        key@ matches KeyView::Str(s) ==> r.0 == KEY_KIND_STR && r.1 == 0 && r.2@ == s,
{
    match key {
        MapKey::Int(i) => (KEY_KIND_INT, *i, Vec::new()),
        MapKey::Str(s) => (KEY_KIND_STR, 0, copy_key_bytes(s)),
    }
}

/// Law: a key survives the trip through its boundary form, and through the
/// value it is surfaced as.
pub proof fn law_key_round_trips(k: KeyView, kind: i32, i: i64, bytes: Seq<u8>)
    requires
        k matches KeyView::Int(n) ==> kind == KEY_KIND_INT && i == n && bytes.len() == 0,
        k matches KeyView::Str(s) ==> kind == KEY_KIND_STR && i == 0 && bytes == s,
    ensures
        kind == KEY_KIND_INT ==> KeyView::Int(i) == k,
        kind == KEY_KIND_STR ==> KeyView::Str(bytes) == k,
        key_of_value(key_value(k)) == Some(k),
{
}

/// The exception for a null argument where a storable value is required.
pub fn reject_null_value(is_null: bool, label: &str) -> (r: Result<(), PhpError>)
    ensures
        r is Ok <==> !is_null,
        r matches Err(e) ==> crate::atomic::is_exception(e, "OxPHP\\Shared\\TypeException"@,
            "Shared\\Map::"@ + label@ + ": null is not a storable value (null means absence; use remove() instead)"@),
{
    if is_null {
        let mut m = String::from_str("Shared\\Map::");
        m.append(label);
        m.append(": null is not a storable value (null means absence; use remove() instead)");
        return Err(PhpError::Exception { class: String::from_str("OxPHP\\Shared\\TypeException"), message: m, code: 0 });
    }
    Ok(())
}

} // verus!
