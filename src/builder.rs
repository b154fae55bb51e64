use vstd::prelude::*;

use crate::digest::{sha3_256_of, HashStream};
use crate::model::{ItemOp, ItemView, ManifestError, ManifestItem, ManifestMap};
use crate::paths::{has_marker, has_remove_marker, join_path, joined_spec};
use vstd::string::StrSliceExecFns;

verus! {

/// The components of the path of `path` relative to `base`, each as text,
/// when there is such a path.
pub uninterp spec fn relative_components_of(path: Seq<char>, base: Seq<char>) -> Option<Seq<Seq<char>>>;

/// Relies on `pathdiff::diff_paths` for the relative path, handed out as
/// the text of its components.
#[verifier::external_body]
fn diff_components(path: &str, base: &str) -> (r: Option<Vec<String>>)
    ensures
        r is Some <==> relative_components_of(path@, base@) is Some,
        r is Some ==> texts(r->0@) == relative_components_of(path@, base@)->0,
{
    pathdiff::diff_paths(path, base).map(|rel| rel.iter().map(|c| c.to_string_lossy().into_owned()).collect())
}

/// The text of each string of a list.
pub open spec fn texts(v: Seq<String>) -> Seq<Seq<char>> {
    v.map_values(|s: String| s@)
}

/// A component that names an entry inside a directory: not empty, not `.`
/// or `..`, and free of `/`.
pub open spec fn normal_part(s: Seq<char>) -> bool {
    &&& s.len() > 0
    &&& s != seq!['.']
    &&& s != seq!['.', '.']
    &&& forall|i: int| 0 <= i < s.len() ==> s[i] != '/'
}

/// Components joined with `/`.
pub open spec fn join_parts(ps: Seq<Seq<char>>) -> Seq<char>
    decreases ps.len(),
{
    if ps.len() == 0 {
        Seq::empty()
    } else if ps.len() == 1 {
        ps[0]
    } else {
        join_parts(ps.drop_last()) + seq!['/'] + ps.last()
    }
}

/// The path key of the file at `path` under the content root `root`: its
/// relative components joined with `/`, when there are some and each of
/// them leads down into a directory entry.
pub open spec fn key_of(path: Seq<char>, root: Seq<char>) -> Option<Seq<char>> {
    match relative_components_of(path, root) {
        Some(ps) => if ps.len() > 0 && forall|i: int| 0 <= i < ps.len() ==> normal_part(#[trigger] ps[i]) {
            Some(join_parts(ps))
        } else {
            None
        },
        None => None,
    }
}

/// The shape of a path key: relative, with no empty segment.
pub open spec fn key_shape(k: Seq<char>) -> bool {
    &&& k.len() > 0
    &&& k[0] != '/'
    &&& k.last() != '/'
    &&& forall|i: int| 0 <= i < k.len() - 1 ==> !(#[trigger] k[i] == '/' && k[i + 1] == '/')
}

proof fn lemma_join_shape(ps: Seq<Seq<char>>)
    requires
        ps.len() > 0,
        forall|i: int| 0 <= i < ps.len() ==> normal_part(#[trigger] ps[i]),
    ensures
        key_shape(join_parts(ps)),
    decreases ps.len(),
{
    if ps.len() > 1 {
        let pre = ps.drop_last();
        assert forall|i: int| 0 <= i < pre.len() implies normal_part(#[trigger] pre[i]) by {
            assert(pre[i] == ps[i]);
        }
        lemma_join_shape(pre);
        let a = join_parts(pre);
        let b = ps.last();
        assert(normal_part(ps[ps.len() - 1]));
        let k = a + seq!['/'] + b;
        assert(k == join_parts(ps));
        assert(k[0] == a[0]);
        assert(k.last() == b.last());
        assert forall|i: int| 0 <= i < k.len() - 1 implies !(#[trigger] k[i] == '/' && k[i + 1] == '/') by {
            if i < a.len() - 1 {
                assert(k[i] == a[i] && k[i + 1] == a[i + 1]);
            } else if i == a.len() - 1 {
                assert(k[i] == a.last());
            } else if i == a.len() {
                assert(k[i + 1] == b[0]);
            } else {
                assert(k[i] == b[i - a.len() - 1]);
            }
        }
    } else {
        assert(normal_part(ps[0]));
    }
}

/// Whether a component leads down into a directory entry.
fn is_normal_part(s: &str) -> (r: bool)
    ensures
        r == normal_part(s@),
{
    let n = s.unicode_len();
    if n == 0 {
        return false;
    }
    if n == 1 && s.get_char(0) == '.' {
        assert(s@ =~= seq!['.']);
        return false;
    }
    if n == 2 && s.get_char(0) == '.' && s.get_char(1) == '.' {
        assert(s@ =~= seq!['.', '.']);
        return false;
    }
    let mut i: usize = 0;
    while i < n
        invariant
            n == s@.len(),
            i <= n,
            forall|j: int| 0 <= j < i ==> s@[j] != '/',
        decreases n - i,
    {
        if s.get_char(i) == '/' {
            return false;
        }
        i += 1;
    }
    proof {
        if n == 1 {
            assert(s@ != seq!['.', '.']);
        }
    }
    true
}

/// Components joined with `/`.
pub fn join_key(parts: &Vec<String>) -> (r: String)
    ensures
        r@ == join_parts(texts(parts@)),
{
    let ghost ps = texts(parts@);
    if parts.len() == 0 {
        return String::new();
    }
    let mut r = parts[0].clone();
    let mut i: usize = 1;
    assert(ps.subrange(0, 1) =~= seq![ps[0]]);
    while i < parts.len()
        invariant
            ps == texts(parts@),
            1 <= i <= parts@.len(),
            r@ == join_parts(ps.subrange(0, i as int)),
        decreases parts@.len() - i,
    {
        proof {
            reveal_strlit("/");
        }
        r.append("/");
        r.append(parts[i].as_str());
        assert(ps.subrange(0, i + 1).drop_last() =~= ps.subrange(0, i as int));
        assert(ps.subrange(0, i + 1).last() == parts@[i as int]@);
        assert(r@ =~= join_parts(ps.subrange(0, i + 1)));
        i += 1;
    }
    assert(ps.subrange(0, parts@.len() as int) =~= ps);
    r
}

/// The path key of a file under the content root: `None` when the file's
/// relative path does not lead down from the root.
pub fn relative_key(path: &str, root: &str) -> (r: Option<String>)
    ensures
        r is Some <==> key_of(path@, root@) is Some,
        r is Some ==> r->0@ == key_of(path@, root@)->0 && key_shape(r->0@),
{
    let parts = match diff_components(path, root) {
        Some(parts) => parts,
        None => return None,
    };
    let ghost ps = texts(parts@);
    if parts.len() == 0 {
        return None;
    }
    let mut i: usize = 0;
    while i < parts.len()
        invariant
            ps == texts(parts@),
            relative_components_of(path@, root@) == Some(ps),
            i <= parts@.len(),
            forall|j: int| 0 <= j < i ==> normal_part(#[trigger] ps[j]),
        decreases parts@.len() - i,
    {
        if !is_normal_part(parts[i].as_str()) {
            assert(!normal_part(ps[i as int]));
            return None;
        }
        i += 1;
    }
    proof {
        lemma_join_shape(ps);
    }
    Some(join_key(&parts))
}

/// The operation of a scanned file: a tombstone when the extension of the
/// last segment of its key, its file name, is the remove marker. It depends
/// on the name alone, never on the content.
pub open spec fn op_for(key: Seq<char>, marker: Seq<char>) -> ItemOp {
    if has_marker(key, marker) {
        ItemOp::Remove
    } else {
        ItemOp::Sync
    }
}

/// The manifest entry of a file with key `key` and the given content.
pub open spec fn scanned_item(key: Seq<char>, content: Seq<u8>, marker: Seq<char>) -> ItemView {
    (op_for(key, marker), content.len() as u64, sha3_256_of(content))
}

/// The operation of the file with key `key`.
pub fn classify(key: &str, marker: &str) -> (r: ItemOp)
    ensures
        r == op_for(key@, marker@),
{
    if has_remove_marker(key, marker) {
        ItemOp::Remove
    } else {
        ItemOp::Sync
    }
}

/// A file found by a scan: its path and the hasher that its content was
/// fed through.
pub struct ScannedFile {
    pub path: String,
    pub content: HashStream,
}

/// A scan as values: path and content of each file, in the order found.
pub open spec fn scan_view(files: Seq<ScannedFile>) -> Seq<(Seq<char>, Seq<u8>)> {
    files.map_values(|f: ScannedFile| (f.path@, f.content@))
}

/// Every file of the scan has a path key under the root.
pub open spec fn all_keyed(root: Seq<char>, files: Seq<(Seq<char>, Seq<u8>)>) -> bool {
    forall|j: int| 0 <= j < files.len() ==> (#[trigger] key_of(files[j].0, root)) is Some
}

/// The manifest that a scan yields: each file under its path key. Files
/// are recorded from the last of the list to the first, so where two share
/// a key the one listed first stands.
pub open spec fn scan_map(root: Seq<char>, files: Seq<(Seq<char>, Seq<u8>)>, marker: Seq<char>) -> Map<Seq<char>, ItemView>
    decreases files.len(),
{
    if files.len() == 0 {
        Map::empty()
    } else {
        let f = files[0];
        let key = key_of(f.0, root)->0;
        scan_map(root, files.drop_first(), marker).insert(key, scanned_item(key, f.1, marker))
    }
}

/// Every key of a manifest is a relative, `/`-joined path, and every
/// digest is 32 bytes long.
pub open spec fn entries_sound(m: Map<Seq<char>, ItemView>) -> bool {
    forall|k: Seq<char>| #[trigger] m.contains_key(k) ==> key_shape(k) && m[k].2.len() == 32
}

/// Records one scanned file in the manifest under its path key.
pub fn record_file(map: &mut ManifestMap, root: &str, file: ScannedFile, marker: &str) -> (r: Result<(), ManifestError>)
    requires
        file.content.wf(),
    ensures
        r is Ok <==> key_of(file.path@, root@) is Some,
        r is Ok ==> final(map).spec_contents() == old(map).spec_contents().insert(
            key_of(file.path@, root@)->0,
            scanned_item(key_of(file.path@, root@)->0, file.content@, marker@),
        ),
        r is Ok ==> sha3_256_of(file.content@).len() == 32 && key_shape(key_of(file.path@, root@)->0),
        r is Err ==> final(map).spec_contents() == old(map).spec_contents() && r->Err_0
            == ManifestError::OutsideRoot,
{
    let key = match relative_key(&file.path, root) {
        Some(key) => key,
        None => return Err(ManifestError::OutsideRoot),
    };
    let op = classify(&key, marker);
    let len = file.content.bytes_read();
    let hash = file.content.finish();
    map.insert(key, ManifestItem { op, len, hash });
    Ok(())
}

/// Builds the manifest of a whole scan. Fails when a file has no path key
/// under the root, and then no manifest comes out.
pub fn build_manifest(root: &str, files: Vec<ScannedFile>, marker: &str) -> (r: Result<ManifestMap, ManifestError>)
    requires
        forall|j: int| 0 <= j < files@.len() ==> (#[trigger] files@[j]).content.wf(),
    ensures
        r is Ok <==> all_keyed(root@, scan_view(files@)),
        r is Ok ==> r->Ok_0.spec_contents() == scan_map(root@, scan_view(files@), marker@),
        r is Ok ==> entries_sound(r->Ok_0.spec_contents()),
        r is Err ==> r->Err_0 == ManifestError::OutsideRoot,
{
    let ghost all = scan_view(files@);
    let mut map = ManifestMap::new();
    let ghost orig = files@;
    let mut pending = files;
    let n = pending.len();
    assert(scan_map(root@, all.subrange(n as int, n as int), marker@) =~= Map::empty());
    while pending.len() > 0
        invariant
            n == all.len(),
            pending@.len() <= n,
            pending@ == orig.subrange(0, pending@.len() as int),
            all == scan_view(orig),
            orig == files@,
            orig.len() == n,
            forall|j: int| 0 <= j < n ==> (#[trigger] orig[j]).content.wf(),
            all_keyed(root@, all.subrange(pending@.len() as int, n as int)),
            map.spec_contents() == scan_map(root@, all.subrange(pending@.len() as int, n as int), marker@),
            entries_sound(map.spec_contents()),
        decreases pending@.len(),
    {
        let ghost k = pending@.len() - 1;
        let ghost before = map.spec_contents();
        let file = pending.pop().unwrap();
        assert(file == orig[k]);
        assert((file.path@, file.content@) == all[k]);
        match record_file(&mut map, root, file, marker) {
            Ok(()) => {},
            Err(e) => {
                assert(key_of(all[k].0, root@) is None);
                assert(!all_keyed(root@, scan_view(orig)));
                return Err(e);
            },
        }
        assert forall|key: Seq<char>| #[trigger] map.spec_contents().contains_key(key) implies key_shape(key) && map.spec_contents()[key].2.len() == 32 by {
            if key != key_of(all[k].0, root@)->0 {
                assert(before.contains_key(key));
            }
        }
        let ghost next = all.subrange(k, n as int);
        assert(next.drop_first() =~= all.subrange(k + 1, n as int));
        assert(next[0] == all[k]);
        assert forall|j: int| 0 <= j < next.len() implies (#[trigger] key_of(next[j].0, root@)) is Some by {
            if j > 0 {
                assert(next[j] == all.subrange(k + 1, n as int)[j - 1]);
            }
        }
    }
    assert(all.subrange(0, n as int) =~= all);
    Ok(map)
}

/// Where the snapshot mirrors the file with key `key`: under the snapshot
/// root at that key, unless the file is a tombstone, which is never served.
pub open spec fn mirror_target(backup_root: Seq<char>, key: Seq<char>, marker: Seq<char>) -> Option<Seq<char>> {
    if has_marker(key, marker) {
        None
    } else {
        Some(joined_spec(backup_root, key))
    }
}

/// Where the snapshot links the file at `path`: `None` for a tombstone,
/// which is left out of the snapshot.
pub fn backup_target(content_root: &str, backup_root: &str, path: &str, marker: &str) -> (r: Result<Option<String>, ManifestError>)
    ensures
        r is Err <==> key_of(path@, content_root@) is None,
        r is Err ==> r->Err_0 == ManifestError::OutsideRoot,
        r is Ok ==> (r->Ok_0 is Some <==> mirror_target(backup_root@, key_of(path@, content_root@)->0, marker@) is Some),
        r is Ok && r->Ok_0 is Some ==> r->Ok_0->0@ == mirror_target(backup_root@, key_of(path@, content_root@)->0, marker@)->0,
{
    let key = match relative_key(path, content_root) {
        Some(key) => key,
        None => return Err(ManifestError::OutsideRoot),
    };
    if has_remove_marker(&key, marker) {
        Ok(None)
    } else {
        Ok(Some(join_path(backup_root, &key)))
    }
}

/// The keys of a manifest built from a scan are exactly the keys of the
/// scanned files: nothing else gets an entry, and no file is left out.
pub proof fn lemma_scan_map_keys(root: Seq<char>, files: Seq<(Seq<char>, Seq<u8>)>, marker: Seq<char>)
    requires
        all_keyed(root, files),
    ensures
        forall|k: Seq<char>| #[trigger] scan_map(root, files, marker).contains_key(k) <==> exists|i: int|
            0 <= i < files.len() && key_of(files[i].0, root) == Some(k),
    decreases files.len(),
{
    if files.len() > 0 {
        let rest = files.drop_first();
        assert forall|j: int| 0 <= j < rest.len() implies (#[trigger] key_of(rest[j].0, root)) is Some by {
            assert(rest[j] == files[j + 1]);
        }
        lemma_scan_map_keys(root, rest, marker);
        assert(key_of(files[0].0, root) is Some);
        let key0 = key_of(files[0].0, root)->0;
        let m = scan_map(root, files, marker);
        let mr = scan_map(root, rest, marker);
        assert(m == mr.insert(key0, scanned_item(key0, files[0].1, marker)));
        assert forall|k: Seq<char>| #[trigger] m.contains_key(k) <==> exists|i: int|
            0 <= i < files.len() && key_of(files[i].0, root) == Some(k) by {
            if m.contains_key(k) {
                if k == key0 {
                    assert(key_of(files[0].0, root) == Some(k));
                } else {
                    assert(mr.contains_key(k));
                    let j = choose|j: int| 0 <= j < rest.len() && key_of(rest[j].0, root) == Some(k);
                    assert(rest[j] == files[j + 1]);
                    assert(key_of(files[j + 1].0, root) == Some(k));
                }
            }
            if exists|i: int| 0 <= i < files.len() && key_of(files[i].0, root) == Some(k) {
                let i = choose|i: int| 0 <= i < files.len() && key_of(files[i].0, root) == Some(k);
                if i > 0 {
                    assert(rest[i - 1] == files[i]);
                    assert(mr.contains_key(k));
                }
            }
        }
    }
}

/// The key of the `i`-th file of a scan is not the key of any file listed
/// before it.
pub open spec fn key_first_at(root: Seq<char>, files: Seq<(Seq<char>, Seq<u8>)>, i: int) -> bool {
    forall|j: int| 0 <= j < i ==> #[trigger] key_of(files[j].0, root) != key_of(files[i].0, root)
}

proof fn lemma_scan_map_entry(root: Seq<char>, files: Seq<(Seq<char>, Seq<u8>)>, marker: Seq<char>, i: int)
    requires
        0 <= i < files.len(),
        all_keyed(root, files),
        key_first_at(root, files, i),
    ensures
        scan_map(root, files, marker).contains_key(key_of(files[i].0, root)->0),
        scan_map(root, files, marker)[key_of(files[i].0, root)->0] == scanned_item(
            key_of(files[i].0, root)->0,
            files[i].1,
            marker,
        ),
    decreases files.len(),
{
    if i > 0 {
        let rest = files.drop_first();
        assert(rest[i - 1] == files[i]);
        assert forall|j: int| 0 <= j < i - 1 implies #[trigger] key_of(rest[j].0, root) != key_of(rest[i - 1].0, root) by {
            assert(rest[j] == files[j + 1]);
            assert(key_of(files[j + 1].0, root) != key_of(files[i].0, root));
        }
        assert forall|j: int| 0 <= j < rest.len() implies (#[trigger] key_of(rest[j].0, root)) is Some by {
            assert(rest[j] == files[j + 1]);
        }
        lemma_scan_map_entry(root, rest, marker, i - 1);
        assert(key_of(files[0].0, root) is Some);
        assert(key_of(files[0].0, root) != key_of(files[i].0, root));
    }
}

/// A scanned file whose name does not carry the remove marker is listed
/// under its path key as a `Sync` entry with its byte length and the digest
/// of its whole content; where keys repeat, this holds of the first file
/// listed with the key.
pub proof fn lemma_synced_file_listed(root: Seq<char>, files: Seq<(Seq<char>, Seq<u8>)>, marker: Seq<char>, i: int)
    requires
        0 <= i < files.len(),
        all_keyed(root, files),
        key_first_at(root, files, i),
        !has_marker(key_of(files[i].0, root)->0, marker),
        files[i].1.len() <= u64::MAX,
    ensures
        ({
            let m = scan_map(root, files, marker);
            let key = key_of(files[i].0, root)->0;
            &&& m.contains_key(key)
            &&& m[key].0 == ItemOp::Sync
            &&& m[key].1 as int == files[i].1.len()
            &&& m[key].2 == sha3_256_of(files[i].1)
        }),
{
    lemma_scan_map_entry(root, files, marker, i);
}

/// A scanned file whose name carries the remove marker is listed as a
/// `Remove` entry with its length and digest, and the snapshot has no place
/// for it.
pub proof fn lemma_marked_file_tombstoned(
    root: Seq<char>,
    backup_root: Seq<char>,
    files: Seq<(Seq<char>, Seq<u8>)>,
    marker: Seq<char>,
    i: int,
)
    requires
        0 <= i < files.len(),
        all_keyed(root, files),
        key_first_at(root, files, i),
        has_marker(key_of(files[i].0, root)->0, marker),
        files[i].1.len() <= u64::MAX,
    ensures
        ({
            let m = scan_map(root, files, marker);
            let key = key_of(files[i].0, root)->0;
            &&& m.contains_key(key)
            &&& m[key].0 == ItemOp::Remove
            &&& m[key].1 as int == files[i].1.len()
            &&& m[key].2 == sha3_256_of(files[i].1)
        }),
        mirror_target(backup_root, key_of(files[i].0, root)->0, marker) is None,
{
    lemma_scan_map_entry(root, files, marker, i);
}

} // verus!
