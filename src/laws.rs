//! Properties that relate the stages' decisions, stated over their
//! contracts and proved.
use crate::arbiter::copy_dest;
use crate::arbiter::first_with_hash;
use crate::arbiter::hash_keys;
use crate::arbiter::is_copy_plan;
use crate::arbiter::is_merge_plan;
use crate::arbiter::merge_dest;
use crate::arbiter::merge_outcome;
use crate::arbiter::variants_cover;
use crate::arbiter::variants_of;
use crate::arbiter::variants_witnessed;
use crate::common::supremum;
use crate::common::MergeResult;
use crate::copier::copy_trace;
use crate::copier::next_step_spec;
use crate::copier::CopyStep;
use crate::discover::is_file_plan;
use crate::discover::listed;
use crate::discover::EntryKind;
use crate::discover::Emission;
use crate::message::CopyFileRequest;
use crate::message::CopyToDestRequest;
use crate::message::HashResult;
use crate::message::TransferRequest;
use crate::order::lemma_sorted_unique;
use crate::order::strictly_sorted;
use vstd::prelude::*;

verus! {

/// Everything sent for one file comes before its ordering token, and the
/// token, if anything is sent, comes last: the arbiter never meets a token
/// whose payload has not been sent yet.
pub proof fn lemma_token_follows_payload(
    read_paths: Seq<Seq<char>>,
    sub: Seq<char>,
    kinds: Seq<EntryKind>,
    files_match: bool,
    r: Seq<Emission>,
)
    requires
        kinds.len() == read_paths.len(),
        is_file_plan(read_paths, sub, kinds, files_match, r),
    ensures
        r.len() > 0 ==> r.last() is Transfer,
        forall|t: int| 0 <= t < r.len() - 1 ==> !(#[trigger] r[t] is Transfer),
{
}

/// A `Merge` token follows exactly one element for each hash channel, in
/// channel order, and every request among them is for the token's file.
pub proof fn lemma_merge_alignment(
    read_paths: Seq<Seq<char>>,
    sub: Seq<char>,
    kinds: Seq<EntryKind>,
    files_match: bool,
    r: Seq<Emission>,
)
    requires
        kinds.len() == read_paths.len(),
        is_file_plan(read_paths, sub, kinds, files_match, r),
        r.len() > 0,
        r.last() == Emission::Transfer(TransferRequest::Merge),
    ensures
        r.len() == kinds.len() + 1,
        forall|i: int|
            0 <= i < kinds.len() ==> (#[trigger] r[i]) is Hash && r[i]->Hash_0 == i && (r[i]->Hash_1 is Some
                ==> r[i]->Hash_1->0.sub_path@ == sub),
{
}

/// When sources and destinations agree by length, nothing is sent for the
/// file: no hash is computed and nothing is copied.
pub proof fn lemma_short_circuit(
    read_paths: Seq<Seq<char>>,
    sub: Seq<char>,
    kinds: Seq<EntryKind>,
    r: Seq<Emission>,
)
    requires
        is_file_plan(read_paths, sub, kinds, true, r),
    ensures
        r.len() == 0,
{
}

/// The walk's order of names depends only on which names the sources hold,
/// not on the order in which their directories list them.
pub proof fn lemma_union_order_determined(
    l1: Seq<Seq<Seq<char>>>,
    l2: Seq<Seq<Seq<char>>>,
    r1: Seq<Seq<char>>,
    r2: Seq<Seq<char>>,
)
    requires
        strictly_sorted(r1),
        strictly_sorted(r2),
        forall|name: Seq<char>| #[trigger] r1.contains(name) <==> listed(l1, name),
        forall|name: Seq<char>| #[trigger] r2.contains(name) <==> listed(l2, name),
        forall|name: Seq<char>| #[trigger] listed(l1, name) <==> listed(l2, name),
    ensures
        r1 == r2,
{
    assert forall|x: Seq<char>| r1.contains(x) <==> r2.contains(x) by {
        assert(r1.contains(x) <==> listed(l1, x));
        assert(r2.contains(x) <==> listed(l2, x));
    }
    lemma_sorted_unique(r1, r2);
}

/// Every variant that some source holds reaches every destination: each
/// write path gets a copy of a source with that hash, at the place
/// `merge_dest` gives. The unit is an error only when no source produced
/// a hash.
pub proof fn lemma_merge_coverage(
    write_paths: Seq<Seq<char>>,
    results: Seq<Option<HashResult>>,
    variants: Seq<HashResult>,
    conflict: bool,
    plan: Seq<Vec<CopyFileRequest>>,
)
    requires
        variants_of(results, results.len() as int, variants),
        is_merge_plan(write_paths, variants, conflict, plan),
    ensures
        (merge_outcome(variants.len() as int, conflict) == MergeResult::Error) <==> forall|i: int|
            0 <= i < results.len() ==> #[trigger] results[i] is None,
        (exists|i: int| 0 <= i < results.len() && #[trigger] results[i] is Some) ==> plan.len() == write_paths.len(),
        forall|j: int, i: int|
            0 <= j < plan.len() && 0 <= i < results.len() && (#[trigger] results[i]) is Some ==> exists|k: int|
                0 <= k < plan[j]@.len() && #[trigger] variants[k].hash@ == results[i]->0.hash@
                    && plan[j]@[k].src_path@ == variants[k].src_path@ && plan[j]@[k].dest_path@ == merge_dest(
                    #[trigger] write_paths[j],
                    variants,
                    k,
                    conflict,
                ),
{
    reveal(variants_cover);
    reveal(variants_witnessed);
    if variants.len() > 0 {
        let i = choose|i: int|
            0 <= i < results.len() && #[trigger] results[i] == Some(#[trigger] variants[0]) && crate::arbiter::first_with_hash(results, i);
        assert(results[i] is Some);
    }
    assert forall|j: int, i: int|
        0 <= j < plan.len() && 0 <= i < results.len() && (#[trigger] results[i]) is Some implies exists|k: int|
            0 <= k < plan[j]@.len() && #[trigger] variants[k].hash@ == results[i]->0.hash@
                && plan[j]@[k].src_path@ == variants[k].src_path@ && plan[j]@[k].dest_path@ == merge_dest(
                #[trigger] write_paths[j],
                variants,
                k,
                conflict,
            ) by {
        let k = choose|k: int| 0 <= k < variants.len() && (#[trigger] variants[k]).hash@ == results[i]->0.hash@;
        assert(plan[j]@[k].src_path@ == variants[k].src_path@);
    }
}

proof fn lemma_hash_present(results: Seq<Option<HashResult>>, v: Seq<HashResult>, x: Seq<char>)
    requires
        variants_of(results, results.len() as int, v),
    ensures
        hash_keys(v).contains(x) <==> exists|i: int|
            0 <= i < results.len() && #[trigger] results[i] is Some && results[i]->0.hash@ == x,
{
    reveal(variants_cover);
    reveal(variants_witnessed);
    if hash_keys(v).contains(x) {
        let k = choose|k: int| 0 <= k < hash_keys(v).len() && hash_keys(v)[k] == x;
        let i = choose|i: int| 0 <= i < results.len() && #[trigger] results[i] == Some(#[trigger] v[k]) && first_with_hash(results, i);
        assert(results[i] is Some && results[i]->0.hash@ == x);
    }
    if exists|i: int| 0 <= i < results.len() && #[trigger] results[i] is Some && results[i]->0.hash@ == x {
        let i = choose|i: int| 0 <= i < results.len() && #[trigger] results[i] is Some && results[i]->0.hash@ == x;
        let k = choose|k: int| 0 <= k < v.len() && (#[trigger] v[k]).hash@ == results[i]->0.hash@;
        assert(hash_keys(v)[k] == x);
    }
}

/// The variants the arbiter keeps are determined by the hash results it
/// received: the conflict names it writes, and their order, depend only on
/// the sources' contents.
pub proof fn lemma_variants_determined(results: Seq<Option<HashResult>>, v1: Seq<HashResult>, v2: Seq<HashResult>)
    requires
        variants_of(results, results.len() as int, v1),
        variants_of(results, results.len() as int, v2),
    ensures
        v1 == v2,
{
    assert forall|x: Seq<char>| hash_keys(v1).contains(x) <==> hash_keys(v2).contains(x) by {
        lemma_hash_present(results, v1, x);
        lemma_hash_present(results, v2, x);
    }
    lemma_sorted_unique(hash_keys(v1), hash_keys(v2));
    reveal(variants_witnessed);
    assert forall|k: int| 0 <= k < v1.len() implies v1[k] == v2[k] by {
        assert(hash_keys(v1)[k] == hash_keys(v2)[k]);
        let i = choose|i: int| 0 <= i < results.len() && #[trigger] results[i] == Some(#[trigger] v1[k]) && first_with_hash(results, i);
        let j = choose|j: int| 0 <= j < results.len() && #[trigger] results[j] == Some(#[trigger] v2[k]) && first_with_hash(results, j);
        if i < j {
            assert(results[i] is Some && results[i]->0.hash@ == results[j]->0.hash@);
        } else if j < i {
            assert(results[j] is Some && results[j]->0.hash@ == results[i]->0.hash@);
        }
    }
    assert(v1 =~= v2);
}

/// Every destination receives the lone source of a `Copy` unit, exactly
/// once: at its sub-path, or under its write-conflict name when a
/// destination differs.
pub proof fn lemma_copy_coverage(
    write_paths: Seq<Seq<char>>,
    req: CopyToDestRequest,
    conflict: bool,
    hash: Option<Seq<char>>,
    plan: Seq<CopyFileRequest>,
)
    requires
        is_copy_plan(write_paths, req, conflict, hash, plan),
    ensures
        plan.len() == write_paths.len(),
        forall|j: int|
            0 <= j < write_paths.len() ==> (#[trigger] plan[j]).src_path@ == req.src_path@ && plan[j].dest_path@
                == copy_dest(write_paths[j], req, conflict, hash),
{
}

/// The supremum of a sequence of results bounds every one of them and is
/// one of them (`Success` when there are none): the final result is the
/// worst result of any unit.
pub proof fn lemma_supremum(results: Seq<MergeResult>)
    ensures
        forall|i: int| 0 <= i < results.len() ==> (#[trigger] results[i]).rank() <= supremum(results).rank(),
        results.len() == 0 ==> supremum(results) == MergeResult::Success,
        results.len() > 0 ==> exists|i: int| 0 <= i < results.len() && #[trigger] results[i] == supremum(results),
    decreases results.len(),
{
    if results.len() > 0 {
        let init = results.drop_last();
        lemma_supremum(init);
        assert forall|i: int| 0 <= i < results.len() implies (#[trigger] results[i]).rank() <= supremum(results).rank() by {
            if i < results.len() - 1 {
                assert(results[i] == init[i]);
            }
        }
        if supremum(results) != results.last() {
            let i = choose|i: int| 0 <= i < init.len() && #[trigger] init[i] == supremum(init);
            assert(results[i] == init[i]);
        }
    }
}

proof fn lemma_trace_steps(outcomes: Seq<bool>)
    ensures
        copy_trace(outcomes).len() == outcomes.len() + 1,
        copy_trace(outcomes)[0] == CopyStep::CheckDest,
        forall|t: int|
            1 <= t <= outcomes.len() ==> #[trigger] copy_trace(outcomes)[t] == next_step_spec(
                copy_trace(outcomes)[t - 1],
                outcomes[t - 1],
            ),
    decreases outcomes.len(),
{
    let tr = copy_trace(outcomes);
    if outcomes.len() == 0 {
        assert(tr == seq![CopyStep::CheckDest]) by {
            reveal(copy_trace);
        }
    } else {
        let init = outcomes.drop_last();
        lemma_trace_steps(init);
        let ti = copy_trace(init);
        assert(tr == ti.push(next_step_spec(ti.last(), outcomes.last()))) by {
            reveal(copy_trace);
        }
        assert forall|t: int| 1 <= t <= outcomes.len() implies #[trigger] tr[t] == next_step_spec(
            tr[t - 1],
            outcomes[t - 1],
        ) by {
            if t < outcomes.len() {
                assert(tr[t] == ti[t]);
                assert(tr[t - 1] == ti[t - 1]);
                assert(outcomes[t - 1] == init[t - 1]);
            }
        }
    }
}

proof fn lemma_step_before(s: CopyStep, ok: bool)
    ensures
        next_step_spec(s, ok) == CopyStep::Rename ==> s == CopyStep::SetMode && ok,
        next_step_spec(s, ok) == CopyStep::SetMode ==> s == CopyStep::SetTimes && ok,
        next_step_spec(s, ok) == CopyStep::SetTimes ==> s == CopyStep::CopyData && ok,
        next_step_spec(s, ok) == CopyStep::CopyData ==> s == CopyStep::MakeTemp && ok,
        next_step_spec(s, ok) == CopyStep::Failed ==> s == CopyStep::RemoveTemp || s == CopyStep::Failed
            || !holds_temp(s),
        s == CopyStep::Done ==> next_step_spec(s, ok) == CopyStep::Done,
        s == CopyStep::CheckDest && !ok ==> next_step_spec(s, ok) == CopyStep::Done,
{
    reveal(next_step_spec);
}

/// Whether the temporary file exists when a step is about to run.
pub open spec fn holds_temp(step: CopyStep) -> bool {
    match step {
        CopyStep::CopyData | CopyStep::SetTimes | CopyStep::SetMode | CopyStep::Rename | CopyStep::RemoveTemp => true,
        _ => false,
    }
}

/// The destination is only ever written by the rename, and the rename only
/// comes right after the contents, the times and the mode of the temporary
/// file were all set successfully: no destination is seen half-written.
pub proof fn lemma_rename_follows_complete_copy(outcomes: Seq<bool>, t: int)
    requires
        0 <= t < copy_trace(outcomes).len(),
        copy_trace(outcomes)[t] == CopyStep::Rename,
    ensures
        t >= 4,
        copy_trace(outcomes)[t - 1] == CopyStep::SetMode && outcomes[t - 2],
        copy_trace(outcomes)[t - 2] == CopyStep::SetTimes && outcomes[t - 3],
        copy_trace(outcomes)[t - 3] == CopyStep::CopyData && outcomes[t - 4],
        outcomes[t - 1],
{
    lemma_trace_steps(outcomes);
    let tr = copy_trace(outcomes);
    lemma_step_before(tr[t - 1], outcomes[t - 1]);
    lemma_step_before(tr[t - 2], outcomes[t - 2]);
    lemma_step_before(tr[t - 3], outcomes[t - 3]);
    lemma_step_before(tr[t - 4], outcomes[t - 4]);
}

/// A failure never leaves the temporary file behind without an attempt to
/// remove it: `Failed` is entered only from `RemoveTemp`, or from a step
/// before the temporary file exists.
pub proof fn lemma_failure_cleans_up(outcomes: Seq<bool>, t: int)
    requires
        1 <= t < copy_trace(outcomes).len(),
        copy_trace(outcomes)[t] == CopyStep::Failed,
        copy_trace(outcomes)[t - 1] != CopyStep::Failed,
    ensures
        copy_trace(outcomes)[t - 1] == CopyStep::RemoveTemp || !holds_temp(copy_trace(outcomes)[t - 1]),
{
    lemma_trace_steps(outcomes);
    lemma_step_before(copy_trace(outcomes)[t - 1], outcomes[t - 1]);
}

proof fn lemma_done_from(outcomes: Seq<bool>, t: int)
    requires
        1 <= t < copy_trace(outcomes).len(),
        !outcomes[0],
    ensures
        copy_trace(outcomes)[t] == CopyStep::Done,
    decreases t,
{
    lemma_trace_steps(outcomes);
    lemma_step_before(copy_trace(outcomes)[t - 1], outcomes[t - 1]);
    if t > 1 {
        lemma_done_from(outcomes, t - 1);
    }
}

/// When the destination already exists, nothing else is done: every later
/// step is `Done`, so a second run copies nothing that is already there.
pub proof fn lemma_existing_destination_untouched(outcomes: Seq<bool>)
    requires
        outcomes.len() > 0,
        !outcomes[0],
    ensures
        forall|t: int| 1 <= t < copy_trace(outcomes).len() ==> #[trigger] copy_trace(outcomes)[t] == CopyStep::Done,
{
    assert forall|t: int| 1 <= t < copy_trace(outcomes).len() implies #[trigger] copy_trace(outcomes)[t] == CopyStep::Done by {
        lemma_done_from(outcomes, t);
    }
}

} // verus!
