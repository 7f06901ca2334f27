//! The content store: one physical copy per distinct fingerprint, sharded by
//! the fingerprint's first two digits.
//!
//! The store's on-disk state is modelled as a map from fingerprint to stored
//! bytes; `store_put` is the state change one `put` performs.  The functions
//! here compute the paths a `put` touches; the copy itself is filesystem
//! traffic and stays outside the library.

use vstd::prelude::*;
use crate::digest::md5_hex_of;
use crate::paths::{join_spec, join_path};

verus! {

/// The shard a fingerprint is filed under: its first two characters.
pub open spec fn shard_spec(fp: Seq<char>) -> Seq<char> {
    fp.take(2)
}

/// The path of the store entry for fingerprint `fp` under `root`:
/// `root/<shard>/<fp>`.
pub open spec fn entry_path_spec(root: Seq<char>, fp: Seq<char>) -> Seq<char> {
    join_spec(join_spec(root, shard_spec(fp)), fp)
}

/// What one `put` does to the store: nothing when an entry for `fp` already
/// exists, otherwise the bytes are filed under `fp`.  An existing entry is
/// never rewritten.
pub open spec fn store_put(
    store: Map<Seq<char>, Seq<u8>>,
    fp: Seq<char>,
    content: Seq<u8>,
) -> Map<Seq<char>, Seq<u8>> {
    if store.contains_key(fp) {
        store
    } else {
        store.insert(fp, content)
    }
}

/// A well-formed store holds under each fingerprint only bytes that carry
/// that fingerprint.
pub open spec fn store_wf(store: Map<Seq<char>, Seq<u8>>) -> bool {
    forall|fp: Seq<char>| #[trigger]
        store.contains_key(fp) ==> md5_hex_of(store[fp]) == fp
}

/// A `put` of bytes under their own fingerprint keeps the store well-formed.
pub proof fn lemma_put_preserves_wf(store: Map<Seq<char>, Seq<u8>>, content: Seq<u8>)
    requires
        store_wf(store),
    ensures
        store_wf(store_put(store, md5_hex_of(content), content)),
{
}

/// Storing under one fingerprint twice — whatever the second source's bytes —
/// changes nothing the second time, and both calls resolve to the same
/// location; an entry, once present, stays exactly as it was.
pub proof fn lemma_put_idempotent(
    store: Map<Seq<char>, Seq<u8>>,
    fp: Seq<char>,
    c1: Seq<u8>,
    c2: Seq<u8>,
)
    ensures
        store_put(store_put(store, fp, c1), fp, c2) == store_put(store, fp, c1),
        store_put(store, fp, c1).contains_key(fp),
        !store.contains_key(fp) ==> store_put(store, fp, c1)[fp] == c1,
        store.contains_key(fp) ==> store_put(store, fp, c1) == store,
{
}

/// Two sources with identical bytes share one fingerprint, resolve to one
/// entry path, and together add at most one entry to the store: after both
/// are stored, the store holds exactly its old entries plus that one.
pub proof fn lemma_identical_content_single_entry(
    store: Map<Seq<char>, Seq<u8>>,
    root: Seq<char>,
    b1: Seq<u8>,
    b2: Seq<u8>,
)
    requires
        b1 == b2,
    ensures
        md5_hex_of(b1) == md5_hex_of(b2),
        entry_path_spec(root, md5_hex_of(b1)) == entry_path_spec(root, md5_hex_of(b2)),
        store_put(store_put(store, md5_hex_of(b1), b1), md5_hex_of(b2), b2) == store_put(
            store,
            md5_hex_of(b1),
            b1,
        ),
        store_put(store, md5_hex_of(b1), b1).dom() =~= store.dom().insert(md5_hex_of(b1)),
{
    lemma_put_idempotent(store, md5_hex_of(b1), b1, b2);
}

/// The content store's root under the target base: `<target_base>/files_by_md5`.
pub fn store_root_path(target_base: &str) -> (r: String)
    ensures
        r@ == join_spec(target_base@, "files_by_md5"@),
{
    join_path(target_base, "files_by_md5")
}

/// The shard directory and entry path one `put` works with, as `shard_spec`
/// and `entry_path_spec` give them.  A fingerprint shorter than a shard is
/// not meaningful here.
pub fn store_paths(md5_dir: &str, md5_hex: &str) -> (r: (String, String))
    requires
        md5_hex@.len() >= 2,
    ensures
        r.0@ == join_spec(md5_dir@, shard_spec(md5_hex@)),
        r.1@ == entry_path_spec(md5_dir@, md5_hex@),
{
    let shard = md5_hex.substring_char(0, 2);
    assert(shard@ =~= shard_spec(md5_hex@));
    let shard_dir = join_path(md5_dir, shard);
    let entry = join_path(shard_dir.as_str(), md5_hex);
    (shard_dir, entry)
}

} // verus!
