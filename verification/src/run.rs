//! One archiver run: the per-file pipeline and the semantics of a whole
//! invocation.
//!
//! A run's effect on disk is modelled by `RunState`: the content store as a
//! map from fingerprint to stored bytes, the pointer records as a map from
//! record path to record content, and the paths of files that could not be
//! read.  `step_spec` is what processing one candidate does; `run_spec`
//! folds it over a traversal.  `process_batch` is the executable
//! orchestrator core, proved to compute exactly `run_spec`; the binary
//! drives the same decisions file by file against the real filesystem.

use vstd::prelude::*;
use crate::config::Config;
use crate::digest::{calculate_md5, md5_hex_of};
use crate::filter::{matches_extension, selected_spec, should_process_file};
use crate::paths::{has_hidden_component, join_spec, join_path, parent_spec, parent_of};
use crate::store::{
    entry_path_spec, shard_spec, store_paths, store_put, store_wf, lemma_put_idempotent,
};

verus! {

/// One file found by traversal: its path relative to the source root, and
/// its full byte contents, or `None` when it could not be read.
pub struct Candidate {
    pub rel_path: String,
    pub content: Option<Vec<u8>>,
}

impl View for Candidate {
    type V = (Seq<char>, Option<Seq<u8>>);

    open spec fn view(&self) -> Self::V {
        (
            self.rel_path@,
            match self.content {
                Some(b) => Some(b@),
                None => None,
            },
        )
    }
}

/// The modelled outcome of a run so far: the store's entries, the pointer
/// records written, and the files that failed.
pub struct RunState {
    pub store: Map<Seq<char>, Seq<u8>>,
    pub records: Map<Seq<char>, Seq<char>>,
    pub failed: Seq<Seq<char>>,
}

impl RunState {
    /// A run against an empty target: nothing stored, recorded or failed.
    pub open spec fn init() -> RunState {
        RunState { store: Map::empty(), records: Map::empty(), failed: Seq::empty() }
    }
}

/// What processing one candidate does.  A candidate that is hidden or of an
/// unaccepted extension changes nothing; an unreadable selected candidate is
/// reported and changes nothing else; otherwise the bytes are stored under
/// their fingerprint (deduplicated) and a pointer record for the candidate's
/// mirrored path is written with the entry's location.
pub open spec fn step_spec(
    s: RunState,
    c: (Seq<char>, Option<Seq<u8>>),
    accepted: Set<Seq<char>>,
    store_root: Seq<char>,
    run_dir: Seq<char>,
) -> RunState {
    if !selected_spec(c.0, accepted) {
        s
    } else {
        match c.1 {
            None => RunState { store: s.store, records: s.records, failed: s.failed.push(c.0) },
            Some(bytes) => RunState {
                store: store_put(s.store, md5_hex_of(bytes), bytes),
                records: s.records.insert(
                    join_spec(run_dir, c.0),
                    entry_path_spec(store_root, md5_hex_of(bytes)),
                ),
                failed: s.failed,
            },
        }
    }
}

/// A whole run: `step_spec` folded over the traversal's candidates in order.
pub open spec fn run_spec(
    s: RunState,
    files: Seq<(Seq<char>, Option<Seq<u8>>)>,
    accepted: Set<Seq<char>>,
    store_root: Seq<char>,
    run_dir: Seq<char>,
) -> RunState
    decreases files.len(),
{
    if files.len() == 0 {
        s
    } else {
        run_spec(
            step_spec(s, files[0], accepted, store_root, run_dir),
            files.skip(1),
            accepted,
            store_root,
            run_dir,
        )
    }
}

/// Extending a run by one candidate is one more step.
pub proof fn lemma_run_snoc(
    s: RunState,
    files: Seq<(Seq<char>, Option<Seq<u8>>)>,
    c: (Seq<char>, Option<Seq<u8>>),
    accepted: Set<Seq<char>>,
    store_root: Seq<char>,
    run_dir: Seq<char>,
)
    ensures
        run_spec(s, files.push(c), accepted, store_root, run_dir) == step_spec(
            run_spec(s, files, accepted, store_root, run_dir),
            c,
            accepted,
            store_root,
            run_dir,
        ),
    decreases files.len(),
{
    reveal_with_fuel(run_spec, 3);
    if files.len() == 0 {
        assert(files.push(c)[0] == c);
        assert(files.push(c).skip(1) =~= Seq::<(Seq<char>, Option<Seq<u8>>)>::empty());
    } else {
        assert(files.push(c)[0] == files[0]);
        assert(files.push(c).skip(1) =~= files.skip(1).push(c));
        lemma_run_snoc(
            step_spec(s, files[0], accepted, store_root, run_dir),
            files.skip(1),
            c,
            accepted,
            store_root,
            run_dir,
        );
    }
}

/// A candidate whose extension is not accepted leaves the run's state
/// exactly as it was: no store entry, no pointer record, no report.
pub proof fn lemma_unaccepted_extension_untouched(
    s: RunState,
    c: (Seq<char>, Option<Seq<u8>>),
    accepted: Set<Seq<char>>,
    store_root: Seq<char>,
    run_dir: Seq<char>,
)
    requires
        !matches_extension(c.0, accepted),
    ensures
        step_spec(s, c, accepted, store_root, run_dir) == s,
{
}

/// A candidate with a hidden component — its own name, or an ancestor's
/// between the root and it — leaves the run's state exactly as it was.
pub proof fn lemma_hidden_untouched(
    s: RunState,
    c: (Seq<char>, Option<Seq<u8>>),
    accepted: Set<Seq<char>>,
    store_root: Seq<char>,
    run_dir: Seq<char>,
)
    requires
        has_hidden_component(c.0),
    ensures
        step_spec(s, c, accepted, store_root, run_dir) == s,
{
}

/// Two selected candidates with identical bytes leave one store entry
/// between them, and both their pointer records name that one entry's path.
pub proof fn lemma_identical_content_one_copy(
    s: RunState,
    rel1: Seq<char>,
    rel2: Seq<char>,
    b: Seq<u8>,
    accepted: Set<Seq<char>>,
    store_root: Seq<char>,
    run_dir: Seq<char>,
)
    requires
        selected_spec(rel1, accepted),
        selected_spec(rel2, accepted),
    ensures
        ({
            let s2 = step_spec(
                step_spec(s, (rel1, Some(b)), accepted, store_root, run_dir),
                (rel2, Some(b)),
                accepted,
                store_root,
                run_dir,
            );
            &&& s2.store == store_put(s.store, md5_hex_of(b), b)
            &&& s2.store.dom() =~= s.store.dom().insert(md5_hex_of(b))
            &&& s2.records[join_spec(run_dir, rel1)] == entry_path_spec(
                store_root,
                md5_hex_of(b),
            )
            &&& s2.records[join_spec(run_dir, rel2)] == entry_path_spec(
                store_root,
                md5_hex_of(b),
            )
        }),
{
    lemma_put_idempotent(s.store, md5_hex_of(b), b, b);
}

/// Every record of a consistent run names the path of an entry the store
/// actually holds.
pub open spec fn records_consistent(s: RunState, store_root: Seq<char>) -> bool {
    forall|p: Seq<char>| #[trigger]
        s.records.contains_key(p) ==> exists|fp: Seq<char>|
            s.store.contains_key(fp) && s.records[p] == entry_path_spec(store_root, fp)
}

/// A fresh run's state is well-formed and consistent, so by preservation
/// every state a run reaches from it is too.
pub proof fn lemma_init_consistent(store_root: Seq<char>)
    ensures
        store_wf(RunState::init().store),
        records_consistent(RunState::init(), store_root),
{
}

/// One step keeps the store well-formed and the records consistent.
pub proof fn lemma_step_preserves_consistency(
    s: RunState,
    c: (Seq<char>, Option<Seq<u8>>),
    accepted: Set<Seq<char>>,
    store_root: Seq<char>,
    run_dir: Seq<char>,
)
    requires
        store_wf(s.store),
        records_consistent(s, store_root),
    ensures
        store_wf(step_spec(s, c, accepted, store_root, run_dir).store),
        records_consistent(step_spec(s, c, accepted, store_root, run_dir), store_root),
{
    let s2 = step_spec(s, c, accepted, store_root, run_dir);
    if selected_spec(c.0, accepted) && c.1 is Some {
        let bytes = c.1.unwrap();
        let fp = md5_hex_of(bytes);
        assert(s2.store.contains_key(fp));
        assert forall|p: Seq<char>| #[trigger] s2.records.contains_key(p) implies exists|
            f: Seq<char>,
        |
            s2.store.contains_key(f) && s2.records[p] == entry_path_spec(store_root, f) by {
            if p == join_spec(run_dir, c.0) {
                assert(s2.store.contains_key(fp) && s2.records[p] == entry_path_spec(
                    store_root,
                    fp,
                ));
            } else {
                let f = choose|f: Seq<char>|
                    s.store.contains_key(f) && s.records[p] == entry_path_spec(store_root, f);
                assert(s2.store.contains_key(f) && s2.records[p] == entry_path_spec(
                    store_root,
                    f,
                ));
            }
        }
    }
}

/// A whole run keeps the store well-formed and the records consistent.
pub proof fn lemma_run_preserves_consistency(
    s: RunState,
    files: Seq<(Seq<char>, Option<Seq<u8>>)>,
    accepted: Set<Seq<char>>,
    store_root: Seq<char>,
    run_dir: Seq<char>,
)
    requires
        store_wf(s.store),
        records_consistent(s, store_root),
    ensures
        store_wf(run_spec(s, files, accepted, store_root, run_dir).store),
        records_consistent(run_spec(s, files, accepted, store_root, run_dir), store_root),
    decreases files.len(),
{
    if files.len() > 0 {
        lemma_step_preserves_consistency(s, files[0], accepted, store_root, run_dir);
        lemma_run_preserves_consistency(
            step_spec(s, files[0], accepted, store_root, run_dir),
            files.skip(1),
            accepted,
            store_root,
            run_dir,
        );
    }
}

/// Reading a pointer record back: in a consistent, well-formed run state,
/// the record's content is the path of a store entry, and the bytes filed
/// there carry exactly the fingerprint embedded in that path — the one
/// computed for the source when the record was written.
pub proof fn lemma_record_round_trip(s: RunState, store_root: Seq<char>, p: Seq<char>)
    requires
        store_wf(s.store),
        records_consistent(s, store_root),
        s.records.contains_key(p),
    ensures
        exists|fp: Seq<char>|
            {
                &&& s.records[p] == entry_path_spec(store_root, fp)
                &&& s.store.contains_key(fp)
                &&& md5_hex_of(#[trigger] s.store[fp]) == fp
            },
{
    let fp = choose|fp: Seq<char>|
        s.store.contains_key(fp) && s.records[p] == entry_path_spec(store_root, fp);
    assert(s.records[p] == entry_path_spec(store_root, fp) && s.store.contains_key(fp)
        && md5_hex_of(s.store[fp]) == fp);
}

/// The candidates of a traversal as the run model sees them.
pub open spec fn views_of(files: Seq<Candidate>) -> Seq<(Seq<char>, Option<Seq<u8>>)> {
    files.map_values(|c: Candidate| c@)
}

/// The views of a sequence of strings.
pub open spec fn string_views(s: Seq<String>) -> Seq<Seq<char>> {
    s.map_values(|x: String| x@)
}

/// Store entries listed as pairs, read as the map they make up; a repeated
/// fingerprint keeps its last bytes.
pub open spec fn entries_map(s: Seq<(String, Vec<u8>)>) -> Map<Seq<char>, Seq<u8>>
    decreases s.len(),
{
    if s.len() == 0 {
        Map::empty()
    } else {
        entries_map(s.drop_last()).insert(s.last().0@, s.last().1@)
    }
}

/// Pointer records listed as pairs, read as the map they make up; a repeated
/// record path keeps its last content.
pub open spec fn records_map(s: Seq<(String, String)>) -> Map<Seq<char>, Seq<char>>
    decreases s.len(),
{
    if s.len() == 0 {
        Map::empty()
    } else {
        records_map(s.drop_last()).insert(s.last().0@, s.last().1@)
    }
}

/// A fingerprint is in the entries' map exactly when some listed pair
/// carries it.
pub proof fn lemma_entries_map_membership(s: Seq<(String, Vec<u8>)>, fp: Seq<char>)
    ensures
        entries_map(s).contains_key(fp) <==> exists|j: int|
            0 <= j < s.len() && #[trigger] s[j].0@ == fp,
    decreases s.len(),
{
    if s.len() > 0 {
        lemma_entries_map_membership(s.drop_last(), fp);
        if s.last().0@ == fp {
            assert(s[s.len() - 1].0@ == fp);
        } else if exists|j: int| 0 <= j < s.len() && #[trigger] s[j].0@ == fp {
            let j = choose|j: int| 0 <= j < s.len() && #[trigger] s[j].0@ == fp;
            assert(s.drop_last()[j].0@ == fp);
        }
    }
}

/// Everything one accepted, readable file needs done on disk, computed from
/// its bytes: the fingerprint; the shard directory to create and the entry
/// path to copy to, unless an entry is already there; and the pointer
/// record's directory, path and content — the entry's location.
pub struct FilePlan {
    pub fingerprint: String,
    pub shard_dir: String,
    pub entry_path: String,
    pub record_path: String,
    pub record_dir: String,
}

/// The plan for one file: where its bytes go in the store under `store_root`
/// and where its pointer record goes under `run_dir`, as the run model has
/// it.
pub fn plan_file(rel_path: &str, content: &Vec<u8>, store_root: &str, run_dir: &str) -> (p:
    FilePlan)
    ensures
        p.fingerprint@ == md5_hex_of(content@),
        p.fingerprint@.len() == 32,
        p.shard_dir@ == join_spec(store_root@, shard_spec(md5_hex_of(content@))),
        p.entry_path@ == entry_path_spec(store_root@, md5_hex_of(content@)),
        p.record_path@ == join_spec(run_dir@, rel_path@),
        p.record_dir@ == parent_spec(join_spec(run_dir@, rel_path@)),
{
    let fingerprint = calculate_md5(content);
    let (shard_dir, entry_path) = store_paths(store_root, fingerprint.as_str());
    let record_path = join_path(run_dir, rel_path);
    let record_dir = parent_of(record_path.as_str());
    FilePlan { fingerprint, shard_dir, entry_path, record_path, record_dir }
}

/// A verified copy of a byte vector.
fn copy_bytes(v: &Vec<u8>) -> (r: Vec<u8>)
    ensures
        r@ == v@,
{
    let mut r: Vec<u8> = Vec::new();
    let n = v.len();
    let mut i: usize = 0;
    while i < n
        invariant
            i <= n,
            n == v@.len(),
            r@ == v@.take(i as int),
        decreases n - i,
    {
        r.push(v[i]);
        proof {
            assert(v@.take(i + 1) =~= v@.take(i as int).push(v@[i as int]));
        }
        i = i + 1;
    }
    proof {
        assert(v@.take(n as int) =~= v@);
    }
    r
}

/// What a run did: the store entries this run created (fingerprint and
/// bytes), the pointer records written (path and content) in processing
/// order, and the relative paths of selected files that could not be read.
pub struct RunOutcome {
    pub store_entries: Vec<(String, Vec<u8>)>,
    pub records: Vec<(String, String)>,
    pub failed: Vec<String>,
}

/// One whole run over an already-collected traversal, against an initially
/// empty store: exactly the run model's fold of `step_spec`.  Per-file
/// failures (an unreadable candidate) are reported in the outcome and never
/// stop the run.
pub fn process_batch(
    files: &Vec<Candidate>,
    extensions: &Config,
    store_root: &str,
    run_dir: &str,
) -> (out: RunOutcome)
    ensures
        ({
            let fin = run_spec(
                RunState::init(),
                views_of(files@),
                extensions.accepted(),
                store_root@,
                run_dir@,
            );
            &&& entries_map(out.store_entries@) == fin.store
            &&& records_map(out.records@) == fin.records
            &&& string_views(out.failed@) == fin.failed
            &&& forall|j: int, k: int|
                0 <= j < k < out.store_entries@.len() ==> out.store_entries@[j].0@
                    != out.store_entries@[k].0@
            &&& forall|j: int|
                0 <= j < out.records@.len() ==> fin.records.contains_key(
                    #[trigger] out.records@[j].0@,
                )
        }),
{
    let ghost accepted = extensions.accepted();
    let ghost views = views_of(files@);
    let mut out = RunOutcome { store_entries: Vec::new(), records: Vec::new(), failed: Vec::new() };
    let n = files.len();
    let mut i: usize = 0;
    proof {
        assert(views.take(0) =~= Seq::<(Seq<char>, Option<Seq<u8>>)>::empty());
    }
    while i < n
        invariant
            i <= n,
            n == files@.len(),
            views == views_of(files@),
            accepted == extensions.accepted(),
            entries_map(out.store_entries@) == run_spec(
                RunState::init(),
                views.take(i as int),
                accepted,
                store_root@,
                run_dir@,
            ).store,
            records_map(out.records@) == run_spec(
                RunState::init(),
                views.take(i as int),
                accepted,
                store_root@,
                run_dir@,
            ).records,
            string_views(out.failed@) == run_spec(
                RunState::init(),
                views.take(i as int),
                accepted,
                store_root@,
                run_dir@,
            ).failed,
            forall|j: int, k: int|
                0 <= j < k < out.store_entries@.len() ==> out.store_entries@[j].0@
                    != out.store_entries@[k].0@,
            forall|j: int|
                0 <= j < out.records@.len() ==> run_spec(
                    RunState::init(),
                    views.take(i as int),
                    accepted,
                    store_root@,
                    run_dir@,
                ).records.contains_key(#[trigger] out.records@[j].0@),
        decreases n - i,
    {
        proof {
            assert(views.take(i + 1) =~= views.take(i as int).push(views[i as int]));
            lemma_run_snoc(RunState::init(), views.take(i as int), views[i as int], accepted, store_root@, run_dir@);
            assert(views[i as int] == files@[i as int]@);
        }
        let c = &files[i];
        if should_process_file(c.rel_path.as_str(), extensions) {
            match &c.content {
                Some(bytes) => {
                    let plan = plan_file(c.rel_path.as_str(), bytes, store_root, run_dir);
                    let ghost fp = md5_hex_of(bytes@);
                    let mut present = false;
                    let m = out.store_entries.len();
                    let mut k: usize = 0;
                    while k < m
                        invariant
                            k <= m,
                            m == out.store_entries@.len(),
                            plan.fingerprint@ == fp,
                            present <==> exists|l: int|
                                0 <= l < k && #[trigger] out.store_entries@[l].0@ == fp,
                        decreases m - k,
                    {
                        if plan.fingerprint.eq(&out.store_entries[k].0) {
                            present = true;
                        }
                        k = k + 1;
                    }
                    proof {
                        lemma_entries_map_membership(out.store_entries@, fp);
                    }
                    if !present {
                        let ghost prev = out.store_entries@;
                        out.store_entries.push((plan.fingerprint.clone(), copy_bytes(bytes)));
                        proof {
                            assert(out.store_entries@.drop_last() =~= prev);
                            assert(entries_map(out.store_entries@) == entries_map(prev).insert(
                                fp,
                                bytes@,
                            ));
                        }
                    }
                    let ghost prev_records = out.records@;
                    out.records.push((plan.record_path, plan.entry_path));
                    proof {
                        assert(out.records@.drop_last() =~= prev_records);
                    }
                },
                None => {
                    let ghost prev_failed = out.failed@;
                    out.failed.push(c.rel_path.clone());
                    proof {
                        assert(string_views(out.failed@) =~= string_views(prev_failed).push(
                            c.rel_path@,
                        ));
                    }
                },
            }
        }
        i = i + 1;
    }
    proof {
        assert(views.take(n as int) =~= views);
    }
    out
}

} // verus!
