//! Snapshot runs: the timestamped run directory and the pointer-record paths
//! that mirror the source layout inside it.

use vstd::prelude::*;
use crate::paths::{join_spec, join_path, parent_spec, parent_of, strip_prefix_spec};

verus! {

/// A source path handed to the recorder was not rooted under the expected
/// source base.
#[derive(Debug)]
pub struct PathError {
    pub path: String,
    pub base: String,
}

/// The characters a run timestamp is written with: digits for the six
/// date-time fields, the underscore between date and time, and a sign on
/// out-of-range years.  No separator ever occurs, so a timestamp is a single
/// path component.
pub open spec fn timestamp_char(c: char) -> bool {
    ('0' <= c && c <= '9') || c == '_' || c == '-' || c == '+'
}

/// The shape of a run timestamp: `YYYYMMDD_HHMMSS`, at least fifteen
/// characters, all from the timestamp alphabet.
pub open spec fn timestamp_shape(t: Seq<char>) -> bool {
    t.len() >= 15 && forall|i: int| 0 <= i < t.len() ==> timestamp_char(#[trigger] t[i])
}

/// Relies on `chrono::Local::now` and its `%Y%m%d_%H%M%S` formatting: a
/// second-granularity, lexically sortable local timestamp.  Whatever the
/// clock reads, the six fields are zero-padded decimal digits joined by one
/// underscore, with a sign only on years outside `0..=9999`.
#[verifier::external_body]
fn local_timestamp() -> (r: String)
    ensures
        timestamp_shape(r@),
{
    chrono::Local::now().format("%Y%m%d_%H%M%S").to_string()
}

/// The directory of a fresh snapshot run under `base`: `base` joined with a
/// timestamp taken at the call.  The timestamp is a single nonempty
/// component, so the run directory lies strictly inside `base`.
pub fn create_timestamp_dir(base: &str) -> (r: String)
    ensures
        exists|t: Seq<char>| #[trigger] timestamp_shape(t) && r@ == join_spec(base@, t),
{
    let t = local_timestamp();
    let r = join_path(base, t.as_str());
    proof {
        assert(timestamp_shape(t@) && r@ == join_spec(base@, t@));
    }
    r
}

/// `source_path` relative to `source_base`, as `strip_prefix_spec` gives it;
/// a `PathError` carrying both paths exactly when `source_path` is not
/// rooted under `source_base`.
pub fn relative_to(source_path: &str, source_base: &str) -> (r: Result<String, PathError>)
    ensures
        match r {
            Ok(rel) => strip_prefix_spec(source_path@, source_base@) == Some(rel@),
            Err(e) => strip_prefix_spec(source_path@, source_base@) is None && e.path@
                == source_path@ && e.base@ == source_base@,
        },
{
    let plen = source_path.unicode_len();
    let blen = source_base.unicode_len();
    if plen < blen {
        return Err(PathError { path: source_path.to_owned(), base: source_base.to_owned() });
    }
    let mut i: usize = 0;
    while i < blen
        invariant
            i <= blen,
            blen == source_base@.len(),
            blen <= plen == source_path@.len(),
            forall|k: int| 0 <= k < i ==> source_path@[k] == source_base@[k],
        decreases blen - i,
    {
        if source_path.get_char(i) != source_base.get_char(i) {
            assert(source_path@[i as int] != source_base@[i as int]);
            return Err(
                PathError { path: source_path.to_owned(), base: source_base.to_owned() },
            );
        }
        i = i + 1;
    }
    assert(source_path@.take(blen as int) =~= source_base@);
    if plen == blen {
        assert(source_path@ =~= source_base@);
        let r = String::new();
        assert(Some(r@) =~= strip_prefix_spec(source_path@, source_base@));
        Ok(r)
    } else if source_path.get_char(blen) == '/' {
        let rel = source_path.substring_char(blen + 1, plen);
        assert(rel@ =~= source_path@.skip(blen as int + 1));
        Ok(rel.to_owned())
    } else {
        assert(source_path@ != source_base@);
        Err(PathError { path: source_path.to_owned(), base: source_base.to_owned() })
    }
}

/// Where one pointer record goes: its file path inside the run directory and
/// the directory that must exist above it.
pub struct RecordPlan {
    pub record_path: String,
    pub record_dir: String,
}

/// The pointer-record placement for `source_path` in the run rooted at
/// `timestamp_dir`: the source's path relative to `source_base`, appended to
/// the run directory, with the record's parent directory alongside.  Fails
/// with a `PathError` exactly when `source_path` is not rooted under
/// `source_base`.
pub fn plan_record(source_path: &str, source_base: &str, timestamp_dir: &str) -> (r: Result<
    RecordPlan,
    PathError,
>)
    ensures
        match r {
            Ok(p) => {
                &&& strip_prefix_spec(source_path@, source_base@) is Some
                &&& p.record_path@ == join_spec(
                    timestamp_dir@,
                    strip_prefix_spec(source_path@, source_base@).unwrap(),
                )
                &&& p.record_dir@ == parent_spec(p.record_path@)
            },
            Err(e) => strip_prefix_spec(source_path@, source_base@) is None && e.path@
                == source_path@ && e.base@ == source_base@,
        },
{
    let rel = match relative_to(source_path, source_base) {
        Ok(rel) => rel,
        Err(e) => {
            return Err(e);
        },
    };
    let record_path = join_path(timestamp_dir, rel.as_str());
    let record_dir = parent_of(record_path.as_str());
    Ok(RecordPlan { record_path, record_dir })
}

} // verus!
