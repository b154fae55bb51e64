use vstd::pervasive::unreached;
use vstd::prelude::*;

verus! {

/// What a manifest entry asks of a client.
#[derive(Clone, Copy, Debug, PartialEq, Eq, Structural, PartialOrd, Ord, Hash)]
pub enum ItemOp {
    /// The path should exist locally with this content.
    Sync,
    /// A tombstone: the path should not exist locally.
    Remove,
}

/// The byte that stands for an operation on the wire.
pub open spec fn op_byte(op: ItemOp) -> u8 {
    match op {
        ItemOp::Sync => 0,
        ItemOp::Remove => 1,
    }
}

impl ItemOp {
    /// The byte that stands for this operation on the wire.
    pub fn to_byte(self) -> (r: u8)
        ensures
            r == op_byte(self),
    {
        match self {
            ItemOp::Sync => 0,
            ItemOp::Remove => 1,
        }
    }

    /// The operation that a wire byte stands for, if any.
    pub fn from_byte(b: u8) -> (r: Option<ItemOp>)
        ensures
            r is Some <==> b <= 1,
            r is Some ==> op_byte(r->0) == b,
    {
        if b == 0 {
            Some(ItemOp::Sync)
        } else if b == 1 {
            Some(ItemOp::Remove)
        } else {
            None
        }
    }
}

/// One entry of a manifest: operation, byte length and digest of the file
/// at scan time.
#[derive(Debug)]
pub struct ManifestItem {
    pub op: ItemOp,
    pub len: u64,
    pub hash: Vec<u8>,
}

impl Clone for ManifestItem {
    fn clone(&self) -> (r: ManifestItem)
        ensures
            r@ == self@,
    {
        ManifestItem { op: self.op, len: self.len, hash: copy_bytes(&self.hash) }
    }
}

/// A manifest entry as a value: operation, length, digest.
pub type ItemView = (ItemOp, u64, Seq<u8>);

/// A manifest entry in its wire form: operation byte, length, digest.
pub type WireItem = (u8, u64, Seq<u8>);

impl View for ManifestItem {
    type V = ItemView;

    open spec fn view(&self) -> ItemView {
        (self.op, self.len, self.hash@)
    }
}

/// The wire form of a manifest.
pub open spec fn wire_of(m: Map<Seq<char>, ItemView>) -> Map<Seq<char>, WireItem> {
    Map::new(|k: Seq<char>| m.dom().contains(k), |k: Seq<char>| (op_byte(m[k].0), m[k].1, m[k].2))
}

/// What a manifest holds: path key to entry.
pub uninterp spec fn manifest_contents(m: dashmap::DashMap<String, ManifestItem>) -> Map<Seq<char>, ItemView>;

/// What a blob decodes to as a MessagePack map from path key to wire entry,
/// if it decodes.
pub uninterp spec fn decoded_blob_of(b: Seq<u8>) -> Option<Map<Seq<char>, WireItem>>;

#[verifier::external_type_specification]
#[verifier::external_body]
pub struct ExEncodeError(rmp_serde::encode::Error);

#[verifier::external_type_specification]
#[verifier::external_body]
pub struct ExDecodeError(rmp_serde::decode::Error);

#[verifier::external_type_specification]
#[verifier::external_body]
#[verifier::reject_recursive_types(K)]
#[verifier::reject_recursive_types(V)]
#[verifier::reject_recursive_types(S)]
pub struct ExDashMap<K, V, S>(dashmap::DashMap<K, V, S>);

/// Relies on `DashMap::new`: a new map is empty.
#[verifier::external_body]
fn empty_map() -> (r: dashmap::DashMap<String, ManifestItem>)
    ensures
        manifest_contents(r).dom() == Set::<Seq<char>>::empty(),
{
    dashmap::DashMap::new()
}

/// Relies on `DashMap::insert`: the key now maps to the item, whatever it
/// mapped to before.
#[verifier::external_body]
fn put(m: &mut dashmap::DashMap<String, ManifestItem>, key: String, item: ManifestItem)
    ensures
        manifest_contents(*final(m)) == manifest_contents(*old(m)).insert(key@, item@),
{
    m.insert(key, item);
}

/// Relies on `DashMap::get`: the item under the key, if there is one.
#[verifier::external_body]
fn lookup(m: &dashmap::DashMap<String, ManifestItem>, key: &str) -> (r: Option<ManifestItem>)
    ensures
        r is Some <==> manifest_contents(*m).contains_key(key@),
        r is Some ==> r->0@ == manifest_contents(*m)[key@],
{
    m.get(key).map(|e| e.value().clone())
}

/// Relies on `DashMap::len`: the number of keys.
#[verifier::external_body]
fn count(m: &dashmap::DashMap<String, ManifestItem>) -> (r: usize)
    ensures
        r == manifest_contents(*m).len(),
{
    m.len()
}

/// Relies on `DashMap::iter`: every entry once, in an order left open.
#[verifier::external_body]
fn entries_of(m: &dashmap::DashMap<String, ManifestItem>) -> (r: Vec<(String, ManifestItem)>)
    ensures
        entries_listed(r@, manifest_contents(*m)),
{
    m.iter().map(|e| (e.key().clone(), e.value().clone())).collect()
}

/// Relies on `rmp_serde::Serializer::new` over a `Vec` and serde's
/// `Serializer::collect_map`: the entries are written, in the order given,
/// as a MessagePack map from key to `[op, len, bin digest]`. Writing into a
/// `Vec` does not fail, and `rmp_serde::from_slice` reads such bytes back as
/// the map that the entries list.
#[verifier::external_body]
fn encode_entries(es: &Vec<(String, u8, u64, Vec<u8>)>) -> (r: Result<Vec<u8>, rmp_serde::encode::Error>)
    ensures
        r is Ok,
        forall|m: Map<Seq<char>, WireItem>| #[trigger] wire_entries_match(es@, m) ==> decoded_blob_of(r->Ok_0@) == Some(m),
{
    let mut buf: Vec<u8> = Vec::new();
    {
        let mut ser = rmp_serde::Serializer::new(&mut buf);
        serde::Serializer::collect_map(&mut ser, es.iter().map(|e| (&e.0, (e.1, e.2, serde_bytes::Bytes::new(&e.3)))))?;
    }
    Ok(buf)
}

/// A list of entries lists exactly the entries of `m`, each key once.
pub open spec fn entries_listed(es: Seq<(String, ManifestItem)>, m: Map<Seq<char>, ItemView>) -> bool {
    &&& forall|i: int, j: int| 0 <= i < j < es.len() ==> es[i].0@ != es[j].0@
    &&& forall|i: int| #![trigger es[i]] 0 <= i < es.len() ==> m.contains_key(es[i].0@) && m[es[i].0@] == es[i].1@
    &&& forall|k: Seq<char>| #[trigger] m.contains_key(k) ==> exists|i: int| 0 <= i < es.len() && es[i].0@ == k
}

/// A manifest under construction or published: a concurrent map of the
/// dashmap crate from path key to entry.
pub struct ManifestMap {
    inner: dashmap::DashMap<String, ManifestItem>,
}

impl ManifestMap {
    /// The view of a manifest: path key to entry.
    pub closed spec fn spec_contents(&self) -> Map<Seq<char>, ItemView> {
        manifest_contents(self.inner)
    }

    /// An empty manifest.
    pub fn new() -> (r: ManifestMap)
        ensures
            r.spec_contents().dom() == Set::<Seq<char>>::empty(),
    {
        ManifestMap { inner: empty_map() }
    }

    /// Records `item` under `key`; a key recorded before is overwritten.
    pub fn insert(&mut self, key: String, item: ManifestItem)
        ensures
            final(self).spec_contents() == old(self).spec_contents().insert(key@, item@),
    {
        put(&mut self.inner, key, item);
    }

    /// The entry under `key`, if any.
    pub fn get(&self, key: &str) -> (r: Option<ManifestItem>)
        ensures
            r is Some <==> self.spec_contents().contains_key(key@),
            r is Some ==> r->0@ == self.spec_contents()[key@],
    {
        lookup(&self.inner, key)
    }

    /// The number of entries.
    pub fn len(&self) -> (r: usize)
        ensures
            r == self.spec_contents().len(),
    {
        count(&self.inner)
    }
}

/// Decodes a blob as a MessagePack map from path key to wire entry.
/// Relies on `rmp_serde::from_slice` into a `BTreeMap`, whose keys are unique.
#[verifier::external_body]
fn decode_wire(blob: &[u8]) -> (r: Result<Vec<(String, u8, u64, Vec<u8>)>, rmp_serde::decode::Error>)
    ensures
        r is Ok <==> decoded_blob_of(blob@) is Some,
        r is Ok ==> wire_entries_match(r->Ok_0@, decoded_blob_of(blob@)->0),
{
    rmp_serde::from_slice::<std::collections::BTreeMap<String, (u8, u64, serde_bytes::ByteBuf)>>(blob)
        .map(|m| m.into_iter().map(|(k, (o, l, h))| (k, o, l, h.into_vec())).collect())
}

/// A list of wire entries lists exactly the entries of `m`, each key once.
pub open spec fn wire_entries_match(es: Seq<(String, u8, u64, Vec<u8>)>, m: Map<Seq<char>, WireItem>) -> bool {
    &&& forall|i: int, j: int| 0 <= i < j < es.len() ==> es[i].0@ != es[j].0@
    &&& forall|i: int| #![trigger es[i]] 0 <= i < es.len() ==> m.contains_key(es[i].0@) && m[es[i].0@] == (es[i].1, es[i].2, es[i].3@)
    &&& forall|k: Seq<char>| #[trigger] m.contains_key(k) ==> exists|i: int| 0 <= i < es.len() && es[i].0@ == k
}

/// Whether every entry of a wire manifest names a known operation.
pub open spec fn ops_known(m: Map<Seq<char>, WireItem>) -> bool {
    forall|k: Seq<char>| #[trigger] m.contains_key(k) ==> m[k].0 <= 1
}

/// Why a manifest could not be built or decoded.
#[derive(Clone, Copy, Debug, PartialEq, Eq, Structural)]
pub enum ManifestError {
    /// The blob is not a manifest.
    Decode,
    /// An entry names an operation that does not exist.
    UnknownOp,
    /// A scanned file has no path key: its path relative to the content
    /// root is missing, empty, or leaves the root.
    OutsideRoot,
}

/// A published manifest, with its encoding computed once so that every
/// request for it is answered with the same bytes.
pub struct ManifestData {
    pub blob: Vec<u8>,
    pub data: ManifestMap,
}

impl ManifestData {
    /// Whether the blob decodes to the map's entries in their wire form.
    pub open spec fn wf(&self) -> bool {
        decoded_blob_of(self.blob@) == Some(wire_of(self.data.spec_contents()))
    }

    /// Encodes `data` once and keeps the bytes beside it.
    pub fn new(data: ManifestMap) -> (r: ManifestData)
        ensures
            r.wf(),
            r.data == data,
    {
        let es = entries_of(&data.inner);
        let ghost c = data.spec_contents();
        let mut wire: Vec<(String, u8, u64, Vec<u8>)> = Vec::new();
        let mut i: usize = 0;
        while i < es.len()
            invariant
                entries_listed(es@, c),
                i <= es@.len(),
                wire@.len() == i,
                forall|j: int| #![trigger wire@[j]] 0 <= j < i ==> wire@[j].0@ == es@[j].0@ && (wire@[j].1, wire@[j].2, wire@[j].3@)
                    == (op_byte(es@[j].1.op), es@[j].1.len, es@[j].1.hash@),
            decreases es@.len() - i,
        {
            let e = &es[i];
            wire.push((e.0.clone(), e.1.op.to_byte(), e.1.len, copy_bytes(&e.1.hash)));
            i += 1;
        }
        let ghost m = wire_of(c);
        assert forall|a: int, b: int| 0 <= a < b < wire@.len() implies wire@[a].0@ != wire@[b].0@ by {
            assert(wire@[a].0@ == es@[a].0@);
            assert(wire@[b].0@ == es@[b].0@);
        }
        assert forall|a: int| #![trigger wire@[a]] 0 <= a < wire@.len() implies m.contains_key(wire@[a].0@)
            && m[wire@[a].0@] == (wire@[a].1, wire@[a].2, wire@[a].3@) by {
            assert(es@[a] == es@[a]);
        }
        assert forall|k: Seq<char>| #[trigger] m.contains_key(k) implies exists|a: int| 0 <= a < wire@.len() && wire@[a].0@ == k by {
            assert(c.contains_key(k));
            let a = choose|a: int| 0 <= a < es@.len() && es@[a].0@ == k;
            assert(wire@[a].0@ == es@[a].0@);
        }
        assert(wire_entries_match(wire@, m));
        match encode_entries(&wire) {
            Ok(blob) => ManifestData { blob, data },
            Err(_) => unreached(),
        }
    }
}

/// Decodes a manifest blob into its entries, one per path key.
pub fn decode_manifest(blob: &[u8]) -> (r: Result<Vec<(String, ManifestItem)>, ManifestError>)
    ensures
        r is Ok <==> decoded_blob_of(blob@) is Some && ops_known(decoded_blob_of(blob@)->0),
        r is Ok ==> entries_match_wire(r->Ok_0@, decoded_blob_of(blob@)->0),
        r is Err && decoded_blob_of(blob@) is None ==> r->Err_0 == ManifestError::Decode,
        r is Err && decoded_blob_of(blob@) is Some ==> r->Err_0 == ManifestError::UnknownOp,
{
    let raw = match decode_wire(blob) {
        Ok(raw) => raw,
        Err(_) => return Err(ManifestError::Decode),
    };
    let ghost m = decoded_blob_of(blob@)->0;
    let mut out: Vec<(String, ManifestItem)> = Vec::new();
    let mut i: usize = 0;
    while i < raw.len()
        invariant
            decoded_blob_of(blob@) == Some(m),
            wire_entries_match(raw@, m),
            i <= raw.len(),
            out.len() == i,
            forall|j: int| #![trigger out@[j]] 0 <= j < i ==> out@[j].0@ == raw@[j].0@
                && (op_byte(out@[j].1.op), out@[j].1.len, out@[j].1.hash@) == (raw@[j].1, raw@[j].2, raw@[j].3@),
        decreases raw.len() - i,
    {
        let e = &raw[i];
        match ItemOp::from_byte(e.1) {
            Some(op) => {
                let hash = copy_bytes(&e.3);
                out.push((e.0.clone(), ManifestItem { op, len: e.2, hash }));
            },
            None => {
                proof {
                    let k = raw@[i as int].0@;
                    assert(raw@[i as int].1 == e.1);
                    assert(m.contains_key(k) && m[k].0 > 1);
                    assert(!ops_known(m));
                }
                return Err(ManifestError::UnknownOp);
            },
        }
        i += 1;
    }
    assert forall|k: Seq<char>| #[trigger] m.contains_key(k) implies m[k].0 <= 1
        && exists|j: int| 0 <= j < out@.len() && out@[j].0@ == k by {
        let j = choose|j: int| 0 <= j < raw@.len() && raw@[j].0@ == k;
        assert(out@[j].0@ == raw@[j].0@);
    }
    assert forall|a: int, b: int| 0 <= a < b < out@.len() implies out@[a].0@ != out@[b].0@ by {
        assert(out@[a].0@ == raw@[a].0@);
        assert(out@[b].0@ == raw@[b].0@);
    }
    assert forall|a: int| #![trigger out@[a]] 0 <= a < out@.len() implies m.contains_key(out@[a].0@)
        && m[out@[a].0@] == (op_byte(out@[a].1.op), out@[a].1.len, out@[a].1.hash@) by {
        assert(out@[a].0@ == raw@[a].0@);
        assert(raw@[a] == raw@[a]);
    }
    Ok(out)
}

/// A copy of a byte vector.
pub fn copy_bytes(v: &Vec<u8>) -> (r: Vec<u8>)
    ensures
        r@ == v@,
{
    let mut r: Vec<u8> = Vec::new();
    let mut i: usize = 0;
    while i < v.len()
        invariant
            i <= v.len(),
            r@ == v@.subrange(0, i as int),
        decreases v.len() - i,
    {
        r.push(v[i]);
        i += 1;
    }
    assert(r@ =~= v@);
    r
}

/// A list of entries lists exactly the entries of a wire manifest, each key
/// once, with operations read from their bytes.
pub open spec fn entries_match_wire(es: Seq<(String, ManifestItem)>, m: Map<Seq<char>, WireItem>) -> bool {
    &&& forall|i: int, j: int| 0 <= i < j < es.len() ==> es[i].0@ != es[j].0@
    &&& forall|i: int| #![trigger es[i]] 0 <= i < es.len() ==> m.contains_key(es[i].0@)
        && m[es[i].0@] == (op_byte(es[i].1.op), es[i].1.len, es[i].1.hash@)
    &&& forall|k: Seq<char>| #[trigger] m.contains_key(k) ==> exists|i: int| 0 <= i < es.len() && es[i].0@ == k
}

/// The blob of a published manifest decodes, and the entries that
/// `decode_manifest` yields from it are exactly the published ones: each key
/// once, with the same operation, length and digest, and no key left out.
pub proof fn lemma_blob_round_trip(data: &ManifestData, es: Seq<(String, ManifestItem)>)
    requires
        data.wf(),
    ensures
        decoded_blob_of(data.blob@) is Some && ops_known(decoded_blob_of(data.blob@)->0),
        entries_match_wire(es, decoded_blob_of(data.blob@)->0) ==> entries_listed(es, data.data.spec_contents()),
{
    let c = data.data.spec_contents();
    let m = wire_of(c);
    assert forall|k: Seq<char>| #[trigger] m.contains_key(k) implies m[k].0 <= 1 by {
        assert(op_byte(c[k].0) <= 1);
    }
    if entries_match_wire(es, m) {
        assert forall|i: int| #![trigger es[i]] 0 <= i < es.len() implies c.contains_key(es[i].0@) && c[es[i].0@] == es[i].1@ by {
            let k = es[i].0@;
            assert(m.contains_key(k));
            assert(op_byte(c[k].0) == op_byte(es[i].1.op));
        }
        assert forall|k: Seq<char>| #[trigger] c.contains_key(k) implies exists|i: int| 0 <= i < es.len() && es[i].0@ == k by {
            assert(m.contains_key(k));
        }
    }
}

} // verus!
