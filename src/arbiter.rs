//! The arbiter's decisions: which variants of a file exist, where each is
//! copied in every destination, and how the unit of work ends.
use crate::common::MergeResult;
use crate::common::views;
use crate::hash::hash_bytes;
use crate::hash::sha256_hex;
use crate::message::CopyFileRequest;
use crate::message::CopyToDestRequest;
use crate::message::HashResult;
use crate::order::lemma_insert_sorted;
use crate::order::locate;
use crate::order::str_less;
use crate::order::strictly_sorted;
use crate::paths::conflict_dest_path;
use crate::paths::get_merge_conflict_dest_file_path;
use crate::paths::join_path;
use crate::paths::join_spec;
use crate::paths::ConflictKind;
use vstd::prelude::*;

verus! {

/// The hashes of a sequence of results.
pub open spec fn hash_keys(v: Seq<HashResult>) -> Seq<Seq<char>> {
    v.map_values(|r: HashResult| r.hash@)
}

/// `results[i]` is present, and no earlier result has the same hash.
pub open spec fn first_with_hash(results: Seq<Option<HashResult>>, i: int) -> bool {
    &&& results[i] is Some
    &&& forall|j: int|
        0 <= j < i ==> !(#[trigger] results[j] is Some && results[j]->0.hash@ == results[i]->0.hash@)
}

/// Each of `variants` is the first result with its hash among the first `n`.
#[verifier::opaque]
pub open spec fn variants_witnessed(results: Seq<Option<HashResult>>, n: int, variants: Seq<HashResult>) -> bool {
    forall|k: int|
        0 <= k < variants.len() ==> exists|i: int|
            0 <= i < n && #[trigger] results[i] == Some(#[trigger] variants[k]) && first_with_hash(results, i)
}

/// Each hash among the first `n` results is the hash of one of `variants`.
#[verifier::opaque]
pub open spec fn variants_cover(results: Seq<Option<HashResult>>, n: int, variants: Seq<HashResult>) -> bool {
    forall|i: int|
        0 <= i < n && #[trigger] results[i] is Some ==> exists|k: int|
            0 <= k < variants.len() && (#[trigger] variants[k]).hash@ == results[i]->0.hash@
}

/// `variants` holds, for each distinct hash among the first `n` results,
/// the first result that has it, ordered by hash.
pub open spec fn variants_of(results: Seq<Option<HashResult>>, n: int, variants: Seq<HashResult>) -> bool {
    &&& strictly_sorted(hash_keys(variants))
    &&& variants_witnessed(results, n, variants)
    &&& variants_cover(results, n, variants)
}

proof fn lemma_variants_skip(results: Seq<Option<HashResult>>, i: int, vars: Seq<HashResult>)
    requires
        0 <= i < results.len(),
        variants_of(results, i, vars),
        results[i] is Some ==> exists|k: int| 0 <= k < vars.len() && (#[trigger] vars[k]).hash@ == results[i]->0.hash@,
    ensures
        variants_of(results, i + 1, vars),
{
    reveal(variants_witnessed);
    reveal(variants_cover);
    assert forall|k: int| 0 <= k < vars.len() implies exists|j: int|
        0 <= j < i + 1 && #[trigger] results[j] == Some(#[trigger] vars[k]) && first_with_hash(results, j) by {
        let j = choose|j: int| 0 <= j < i && #[trigger] results[j] == Some(#[trigger] vars[k]) && first_with_hash(results, j);
    }
}

proof fn lemma_variant_is_new(results: Seq<Option<HashResult>>, i: int, vars: Seq<HashResult>)
    requires
        0 <= i < results.len(),
        variants_of(results, i, vars),
        results[i] is Some,
        forall|k: int| 0 <= k < vars.len() ==> (#[trigger] vars[k]).hash@ != results[i]->0.hash@,
    ensures
        first_with_hash(results, i),
{
    reveal(variants_cover);
    assert forall|j: int| 0 <= j < i implies !(#[trigger] results[j] is Some
        && results[j]->0.hash@ == results[i]->0.hash@) by {
        if results[j] is Some && results[j]->0.hash@ == results[i]->0.hash@ {
            let k = choose|k: int| 0 <= k < vars.len() && (#[trigger] vars[k]).hash@ == results[j]->0.hash@;
        }
    }
}

proof fn lemma_sorted_insert(old_vars: Seq<HashResult>, vars: Seq<HashResult>, pos: int, h: HashResult)
    requires
        0 <= pos <= old_vars.len(),
        strictly_sorted(hash_keys(old_vars)),
        vars == old_vars.insert(pos, h),
        forall|k: int| 0 <= k < pos ==> str_less((#[trigger] old_vars[k]).hash@, h.hash@),
        forall|k: int| pos <= k < old_vars.len() ==> str_less(h.hash@, (#[trigger] old_vars[k]).hash@),
    ensures
        strictly_sorted(hash_keys(vars)),
{
    let ok = hash_keys(old_vars);
    assert forall|k: int| 0 <= k < pos implies str_less(#[trigger] ok[k], h.hash@) by {
        assert(ok[k] == old_vars[k].hash@);
    }
    assert forall|k: int| pos <= k < ok.len() implies str_less(h.hash@, #[trigger] ok[k]) by {
        assert(ok[k] == old_vars[k].hash@);
    }
    lemma_insert_sorted(ok, pos, h.hash@);
    assert(hash_keys(vars) =~= ok.insert(pos, h.hash@));
}

proof fn lemma_witnessed_insert(
    results: Seq<Option<HashResult>>,
    i: int,
    old_vars: Seq<HashResult>,
    vars: Seq<HashResult>,
    pos: int,
)
    requires
        0 <= i < results.len(),
        0 <= pos <= old_vars.len(),
        variants_witnessed(results, i, old_vars),
        first_with_hash(results, i),
        vars == old_vars.insert(pos, results[i]->0),
    ensures
        variants_witnessed(results, i + 1, vars),
{
    reveal(variants_witnessed);
    assert forall|k: int| 0 <= k < vars.len() implies exists|j: int|
        0 <= j < i + 1 && #[trigger] results[j] == Some(#[trigger] vars[k]) && first_with_hash(results, j) by {
        if k < pos {
            assert(vars[k] == old_vars[k]);
            let j = choose|j: int| 0 <= j < i && #[trigger] results[j] == Some(#[trigger] old_vars[k]) && first_with_hash(results, j);
        } else if k == pos {
            assert(results[i] == Some(vars[k]));
        } else {
            assert(vars[k] == old_vars[k - 1]);
            let j = choose|j: int| 0 <= j < i && #[trigger] results[j] == Some(#[trigger] old_vars[k - 1]) && first_with_hash(results, j);
        }
    }
}

proof fn lemma_cover_insert(
    results: Seq<Option<HashResult>>,
    i: int,
    old_vars: Seq<HashResult>,
    vars: Seq<HashResult>,
    pos: int,
)
    requires
        0 <= i < results.len(),
        0 <= pos <= old_vars.len(),
        variants_cover(results, i, old_vars),
        results[i] is Some,
        vars == old_vars.insert(pos, results[i]->0),
    ensures
        variants_cover(results, i + 1, vars),
{
    reveal(variants_cover);
    assert forall|j: int| 0 <= j < i + 1 && #[trigger] results[j] is Some implies exists|k: int|
        0 <= k < vars.len() && (#[trigger] vars[k]).hash@ == results[j]->0.hash@ by {
        if j == i {
            assert(vars[pos].hash@ == results[j]->0.hash@);
        } else {
            let k = choose|k: int| 0 <= k < old_vars.len() && (#[trigger] old_vars[k]).hash@ == results[j]->0.hash@;
            if k < pos {
                assert(vars[k] == old_vars[k]);
            } else {
                assert(vars[k + 1] == old_vars[k]);
            }
        }
    }
}

/// Keeps, for each distinct hash among the aligned hash results of one
/// sub-path, the first result that has it (placeholders are dropped), in
/// the order of the hashes.
pub fn collect_variants(results: &Vec<Option<HashResult>>) -> (r: Vec<HashResult>)
    ensures
        variants_of(results@, results@.len() as int, r@),
{
    let mut variants: Vec<HashResult> = Vec::new();
    let mut keys: Vec<String> = Vec::new();
    let mut i: usize = 0;
    proof {
        assert(hash_keys(variants@) =~= Seq::empty());
        reveal(variants_witnessed);
        reveal(variants_cover);
    }
    while i < results.len()
        invariant
            i <= results@.len(),
            keys@.len() == variants@.len(),
            views(keys@) == hash_keys(variants@),
            strictly_sorted(hash_keys(variants@)),
            variants_of(results@, i as int, variants@),
        decreases results.len() - i,
    {
        let ghost old_vars = variants@;
        let ghost old_keys = keys@;
        proof {
            assert(views(old_keys).len() == old_keys.len());
            assert(hash_keys(old_vars).len() == old_vars.len());
        }
        match &results[i] {
            None => {},
            Some(hr) => {
                proof {
                    assert(keys@.map_values(|k: String| k@) == views(keys@));
                }
                let (found, pos) = locate(&keys, hr.hash.as_str());
                if found {
                    proof {
                        let k = choose|k: int| 0 <= k < keys@.len() && keys@[k]@ == hr.hash@;
                        assert(views(keys@)[k] == keys@[k]@);
                        assert(hash_keys(variants@)[k] == variants@[k].hash@);
                    }
                } else {
                    proof {
                        assert forall|k: int| 0 <= k < old_vars.len() implies (#[trigger] old_vars[k]).hash@ != hr.hash@ by {
                            assert(views(old_keys)[k] == old_keys[k]@);
                            assert(hash_keys(old_vars)[k] == old_vars[k].hash@);
                        }
                        lemma_variant_is_new(results@, i as int, old_vars);
                        assert forall|k: int| 0 <= k < pos implies str_less((#[trigger] old_vars[k]).hash@, hr.hash@) by {
                            assert(views(old_keys)[k] == old_keys[k]@);
                            assert(hash_keys(old_vars)[k] == old_vars[k].hash@);
                        }
                        assert forall|k: int| pos <= k < old_vars.len() implies str_less(hr.hash@, (#[trigger] old_vars[k]).hash@) by {
                            assert(views(old_keys)[k] == old_keys[k]@);
                            assert(hash_keys(old_vars)[k] == old_vars[k].hash@);
                        }
                    }
                    variants.insert(pos, hr.duplicate());
                    keys.insert(pos, hr.hash.clone());
                    proof {
                        lemma_witnessed_insert(results@, i as int, old_vars, variants@, pos as int);
                        lemma_cover_insert(results@, i as int, old_vars, variants@, pos as int);
                        lemma_sorted_insert(old_vars, variants@, pos as int, *hr);
                        assert forall|x: int| 0 <= x < keys@.len() implies #[trigger] views(keys@)[x] == hash_keys(variants@)[x] by {
                            if x < pos {
                                assert(views(old_keys)[x] == hash_keys(old_vars)[x]);
                            } else if x > pos {
                                assert(views(old_keys)[x - 1] == hash_keys(old_vars)[x - 1]);
                            }
                        }
                        assert(views(keys@) =~= hash_keys(variants@));
                    }
                }
            },
        }
        proof {
            if variants@ == old_vars {
                lemma_variants_skip(results@, i as int, variants@);
            }
        }
        i = i + 1;
    }
    variants
}

/// Where variant `k` of `variants` is written under write path `w`: under
/// its read-conflict name when the sources disagree, under its
/// write-conflict name when they agree but a destination differs, and at
/// its own sub-path otherwise.
pub open spec fn merge_dest(w: Seq<char>, variants: Seq<HashResult>, k: int, conflict: bool) -> Seq<char> {
    let v = variants[k];
    if variants.len() >= 2 {
        conflict_dest_path(w, v.src_path@, v.sub_path@, Some(v.hash@), ConflictKind::Read)
    } else if conflict {
        conflict_dest_path(w, v.src_path@, v.sub_path@, Some(v.hash@), ConflictKind::Write)
    } else {
        join_spec(w, v.sub_path@)
    }
}

/// How a `Merge` unit with `n` variants ends.
pub open spec fn merge_outcome(n: int, conflict: bool) -> MergeResult {
    if n == 0 {
        MergeResult::Error
    } else if n == 1 && !conflict {
        MergeResult::Success
    } else {
        MergeResult::Conflict
    }
}

/// `plan[j]` holds the copies for write path `j`: one per variant, in the
/// order of the variants. With no variant there is nothing to copy.
pub open spec fn is_merge_plan(
    write_paths: Seq<Seq<char>>,
    variants: Seq<HashResult>,
    conflict: bool,
    plan: Seq<Vec<CopyFileRequest>>,
) -> bool {
    &&& plan.len() == (if variants.len() == 0 { 0 } else { write_paths.len() })
    &&& forall|j: int|
        0 <= j < plan.len() ==> (#[trigger] plan[j])@.len() == variants.len()
    &&& forall|j: int, k: int|
        0 <= j < plan.len() && 0 <= k < variants.len() ==> (#[trigger] plan[j]@[k]).src_path@
            == variants[k].src_path@ && plan[j]@[k].dest_path@ == merge_dest(write_paths[j], variants, k, conflict)
}

/// Plans the copies of one `Merge` unit from its variants. `write_conflict`
/// says whether the single variant, if there is one, conflicts with an
/// existing destination. With no variant the unit is an error.
pub fn plan_merge(
    write_paths: &Vec<String>,
    variants: &Vec<HashResult>,
    write_conflict: bool,
) -> (r: (Vec<Vec<CopyFileRequest>>, MergeResult))
    ensures
        is_merge_plan(views(write_paths@), variants@, write_conflict, r.0@),
        r.1 == merge_outcome(variants@.len() as int, write_conflict),
{
    let n = variants.len();
    let mut plan: Vec<Vec<CopyFileRequest>> = Vec::new();
    if n == 0 {
        return (plan, MergeResult::Error);
    }
    let mut j: usize = 0;
    while j < write_paths.len()
        invariant
            n == variants@.len(),
            n > 0,
            j <= write_paths@.len(),
            plan@.len() == j,
            forall|a: int| 0 <= a < j ==> (#[trigger] plan@[a])@.len() == n,
            forall|a: int, k: int|
                0 <= a < j && 0 <= k < n ==> (#[trigger] plan@[a]@[k]).src_path@ == variants@[k].src_path@
                    && plan@[a]@[k].dest_path@ == merge_dest(views(write_paths@)[a], variants@, k, write_conflict),
        decreases write_paths.len() - j,
    {
        let w = write_paths[j].as_str();
        proof {
            assert(views(write_paths@)[j as int] == w@);
        }
        let mut row: Vec<CopyFileRequest> = Vec::new();
        let mut k: usize = 0;
        while k < n
            invariant
                n == variants@.len(),
                k <= n,
                j < write_paths@.len(),
                views(write_paths@)[j as int] == w@,
                row@.len() == k,
                forall|b: int| 0 <= b < k ==> (#[trigger] row@[b]).src_path@ == variants@[b].src_path@
                    && row@[b].dest_path@ == merge_dest(w@, variants@, b, write_conflict),
            decreases n - k,
        {
            let v = &variants[k];
            let dest = if n >= 2 {
                get_merge_conflict_dest_file_path(w, v.src_path.as_str(), v.sub_path.as_str(), Some(v.hash.as_str()), ConflictKind::Read)
            } else if write_conflict {
                get_merge_conflict_dest_file_path(w, v.src_path.as_str(), v.sub_path.as_str(), Some(v.hash.as_str()), ConflictKind::Write)
            } else {
                join_path(w, v.sub_path.as_str())
            };
            row.push(CopyFileRequest { src_path: v.src_path.clone(), dest_path: dest });
            k = k + 1;
        }
        plan.push(row);
        j = j + 1;
    }
    let result = if n == 1 && !write_conflict {
        MergeResult::Success
    } else {
        MergeResult::Conflict
    };
    (plan, result)
}

/// Where the lone source of a `Copy` unit is written under write path `w`:
/// under its write-conflict name (with `hash`, where known) when a
/// destination differs, and at its own sub-path otherwise.
pub open spec fn copy_dest(w: Seq<char>, req: CopyToDestRequest, conflict: bool, hash: Option<Seq<char>>) -> Seq<char> {
    if conflict {
        conflict_dest_path(w, req.src_path@, req.sub_path@, hash, ConflictKind::Write)
    } else {
        join_spec(w, req.sub_path@)
    }
}

/// `plan[j]` is the copy for write path `j`.
pub open spec fn is_copy_plan(
    write_paths: Seq<Seq<char>>,
    req: CopyToDestRequest,
    conflict: bool,
    hash: Option<Seq<char>>,
    plan: Seq<CopyFileRequest>,
) -> bool {
    &&& plan.len() == write_paths.len()
    &&& forall|j: int|
        0 <= j < plan.len() ==> (#[trigger] plan[j]).src_path@ == req.src_path@ && plan[j].dest_path@
            == copy_dest(write_paths[j], req, conflict, hash)
}

/// Plans the copies of one `Copy` unit: its source goes to every write
/// path. `hash` is the source's hash, where it could be computed; it only
/// matters for a write conflict, which makes the unit a conflict.
pub fn plan_copy_to_dest(
    write_paths: &Vec<String>,
    req: &CopyToDestRequest,
    write_conflict: bool,
    hash: Option<&str>,
) -> (r: (Vec<CopyFileRequest>, MergeResult))
    ensures
        is_copy_plan(views(write_paths@), *req, write_conflict, crate::paths::opt_view(hash), r.0@),
        r.1 == if write_conflict { MergeResult::Conflict } else { MergeResult::Success },
{
    let mut plan: Vec<CopyFileRequest> = Vec::new();
    let mut j: usize = 0;
    while j < write_paths.len()
        invariant
            j <= write_paths@.len(),
            plan@.len() == j,
            forall|a: int| 0 <= a < j ==> (#[trigger] plan@[a]).src_path@ == req.src_path@
                && plan@[a].dest_path@ == copy_dest(views(write_paths@)[a], *req, write_conflict, crate::paths::opt_view(hash)),
        decreases write_paths.len() - j,
    {
        let w = write_paths[j].as_str();
        proof {
            assert(views(write_paths@)[j as int] == w@);
        }
        let dest = if write_conflict {
            get_merge_conflict_dest_file_path(w, req.src_path.as_str(), req.sub_path.as_str(), hash, ConflictKind::Write)
        } else {
            join_path(w, req.sub_path.as_str())
        };
        plan.push(CopyFileRequest { src_path: req.src_path.clone(), dest_path: dest });
        j = j + 1;
    }
    let result = if write_conflict {
        MergeResult::Conflict
    } else {
        MergeResult::Success
    };
    (plan, result)
}

/// The hash of optional contents.
pub open spec fn contents_hash(contents: Option<&[u8]>) -> Option<Seq<char>> {
    match contents {
        Some(c) => Some(sha256_hex(c@)),
        None => None,
    }
}

/// Plans the copies of one `Copy` unit. On a write conflict the conflict
/// name carries the hash of the source's `contents`, or no hash where they
/// could not be read (`None`).
pub fn handle_copy_to_dest(
    write_paths: &Vec<String>,
    req: &CopyToDestRequest,
    write_conflict: bool,
    contents: Option<&[u8]>,
) -> (r: (Vec<CopyFileRequest>, MergeResult))
    ensures
        is_copy_plan(views(write_paths@), *req, write_conflict, contents_hash(contents), r.0@),
        r.1 == if write_conflict { MergeResult::Conflict } else { MergeResult::Success },
{
    let hash = match contents {
        Some(c) => Some(hash_bytes(c)),
        None => None,
    };
    match &hash {
        Some(h) => plan_copy_to_dest(write_paths, req, write_conflict, Some(h.as_str())),
        None => plan_copy_to_dest(write_paths, req, write_conflict, None),
    }
}

} // verus!
