//! The publish coordinator's decisions between its storage and network
//! steps: which check results publish and which carry forward, which
//! previous payloads to fetch for the failures, the snapshot history kept
//! for rollback, which snapshot keys the sweep deletes, and in what order
//! the outside steps of a reconcile run.
use vstd::prelude::*;

use crate::content::routes::{opt_view, snapshot_key_sha, spec_post_key_at, spec_snapshot_key_sha};
use crate::content::{post_key_at, Diagnostic, IndexEntry};
use crate::publish::{failures, passed, ParsedPost, PostSource};
use crate::sorted::views;
use crate::text::{owned, text_eq};

verus! {

/// Snapshots kept for rollback; older ones are swept after a flip.
pub const KEEP_SNAPSHOTS: usize = 10;

/// Whether a request to the coordinator is the trigger: `POST /trigger`.
/// Anything else is answered 404.
pub fn is_trigger(method: &str, path: &str) -> (r: bool)
    ensures
        r == (method@ == "POST"@ && path@ == "/trigger"@),
{
    text_eq(method, "POST") && text_eq(path, "/trigger")
}

/// Whether the alarm runs again at once after a reconcile: a trigger that
/// landed during the run left the coordinator dirty.
pub fn run_again(dirty: Option<bool>) -> (r: bool)
    ensures
        r == (dirty == Some(true)),
{
    match dirty {
        Some(d) => d,
        None => false,
    }
}

/// The slugs of the sources that failed, in source order.
pub open spec fn failed_slugs(sources: Seq<PostSource>, results: Seq<Result<ParsedPost, Vec<Diagnostic>>>) -> Seq<Seq<char>>
    decreases results.len(),
{
    if results.len() == 0 || sources.len() < results.len() {
        Seq::empty()
    } else {
        let rest = failed_slugs(sources.take(results.len() - 1), results.drop_last());
        match results.last() {
            Ok(_) => rest,
            Err(_) => rest.push(sources[results.len() - 1].slug@),
        }
    }
}

/// What a reconcile does with the check of each source.
pub struct CheckSplit {
    /// The posts that passed, in source order.
    pub parsed: Vec<ParsedPost>,
    /// The failures' diagnostics, in source order.
    pub diagnostics: Vec<Diagnostic>,
    /// The slugs of the sources that failed, in source order.
    pub failed: Vec<String>,
}

/// Splits the per-source check results (one per source, in order) into the
/// posts to publish, the diagnostics to report and the slugs whose previous
/// version to carry forward.
pub fn split_checks(sources: &[PostSource], results: Vec<Result<ParsedPost, Vec<Diagnostic>>>) -> (r: CheckSplit)
    requires
        results@.len() == sources@.len(),
    ensures
        r.parsed@ == passed(results@),
        r.diagnostics@ == failures(results@),
        views(r.failed@) == failed_slugs(sources@, results@),
{
    let ghost all = results@;
    let mut parsed: Vec<ParsedPost> = Vec::new();
    let mut diagnostics: Vec<Diagnostic> = Vec::new();
    let mut failed: Vec<String> = Vec::new();
    let mut i: usize = 0;
    let mut results = results;
    assert(views(failed@) =~= Seq::<Seq<char>>::empty());
    assert(all.skip(0) =~= all);
    while i < sources.len()
        invariant
            all.len() == sources@.len(),
            i <= all.len(),
            i + results@.len() == all.len(),
            results@ == all.skip(i as int),
            parsed@ == passed(all.take(i as int)),
            diagnostics@ == failures(all.take(i as int)),
            views(failed@) == failed_slugs(sources@.take(i as int), all.take(i as int)),
        decreases all.len() - i,
    {
        let ghost before = results@;
        let next = results.remove(0);
        proof {
            assert(before[0] == all[i as int]);
            assert(results@ =~= all.skip(i + 1));
            assert(all.take(i + 1).drop_last() =~= all.take(i as int));
            assert(all.take(i + 1).last() == all[i as int]);
            assert(sources@.take(i + 1).take(i as int) =~= sources@.take(i as int));
        }
        match next {
            Ok(p) => {
                parsed.push(p);
            },
            Err(ds) => {
                let mut ds = ds;
                diagnostics.append(&mut ds);
                let ghost f0 = failed@;
                failed.push(sources[i].slug.clone());
                assert(views(failed@) =~= views(f0).push(sources@[i as int].slug@));
            },
        }
        i += 1;
    }
    assert(all.take(all.len() as int) =~= all);
    assert(sources@.take(sources@.len() as int) =~= sources@);
    CheckSplit { parsed, diagnostics, failed }
}

/// The position of the first entry with `slug`.
pub open spec fn entry_index(entries: Seq<IndexEntry>, slug: Seq<char>) -> Option<int>
    decreases entries.len(),
{
    if entries.len() == 0 {
        None
    } else {
        match entry_index(entries.drop_last(), slug) {
            Some(i) => Some(i),
            None => if entries.last().slug@ == slug {
                Some(entries.len() - 1)
            } else {
                None
            },
        }
    }
}

proof fn lemma_entry_index_prefix(entries: Seq<IndexEntry>, slug: Seq<char>, i: int)
    requires
        0 <= i < entries.len(),
        entry_index(entries.take(i), slug) is None,
        entries[i].slug@ == slug,
    ensures
        entry_index(entries, slug) == Some(i),
    decreases entries.len(),
{
    assert(entries.take(i + 1).drop_last() =~= entries.take(i));
    if i + 1 < entries.len() {
        assert(entries.drop_last().take(i) =~= entries.take(i));
        lemma_entry_index_prefix(entries.drop_last(), slug, i);
    } else {
        assert(entries.take(i + 1) =~= entries);
    }
}

fn find_entry(entries: &[IndexEntry], slug: &str) -> (r: Option<usize>)
    ensures
        match entry_index(entries@, slug@) {
            Some(i) => r matches Some(k) && k as int == i,
            None => r is None,
        },
{
    let mut i: usize = 0;
    while i < entries.len()
        invariant
            i <= entries@.len(),
            entry_index(entries@.take(i as int), slug@) is None,
        decreases entries@.len() - i,
    {
        assert(entries@.take(i + 1).drop_last() =~= entries@.take(i as int));
        if text_eq(&entries[i].slug, slug) {
            proof {
                lemma_entry_index_prefix(entries@, slug@, i as int);
            }
            return Some(i);
        }
        i += 1;
    }
    assert(entries@.take(entries@.len() as int) =~= entries@);
    None
}

/// A previous version to carry forward: its entry in the previous index
/// and the key its payload is stored under.
pub struct CarryRequest {
    /// Position of the entry in the previous index.
    pub entry: usize,
    pub key: String,
}

/// For each failed slug, in order, that the previous index lists: the
/// position of its first entry there and the key of its stored payload.
pub open spec fn carry_plan(failed: Seq<Seq<char>>, prev: Seq<IndexEntry>, prev_sha: Option<Seq<char>>)
    -> Seq<(int, Seq<char>)>
    decreases failed.len(),
{
    if failed.len() == 0 {
        Seq::empty()
    } else {
        let rest = carry_plan(failed.drop_last(), prev, prev_sha);
        match entry_index(prev, failed.last()) {
            Some(i) => rest.push((i, spec_post_key_at(prev_sha, failed.last()))),
            None => rest,
        }
    }
}

/// The request's view.
pub open spec fn request_view(c: CarryRequest) -> (int, Seq<char>) {
    (c.entry as int, c.key@)
}

/// Which previous payloads to fetch for the failed posts. A failed post the
/// previous index does not list has nothing to carry.
pub fn carry_requests(failed: &[String], prev: &[IndexEntry], prev_sha: Option<&str>) -> (r: Vec<CarryRequest>)
    ensures
        r@.map_values(|c: CarryRequest| request_view(c)) == carry_plan(views(failed@), prev@, opt_view(prev_sha)),
        forall|k: int| 0 <= k < r@.len() ==> (#[trigger] r@[k]).entry < prev@.len(),
{
    let ghost fv = views(failed@);
    let mut r: Vec<CarryRequest> = Vec::new();
    let mut i: usize = 0;
    assert(r@.map_values(|c: CarryRequest| request_view(c)) =~= carry_plan(fv.take(0), prev@, opt_view(prev_sha)));
    while i < failed.len()
        invariant
            i <= failed@.len(),
            fv == views(failed@),
            r@.map_values(|c: CarryRequest| request_view(c)) == carry_plan(fv.take(i as int), prev@, opt_view(prev_sha)),
            forall|k: int| 0 <= k < r@.len() ==> (#[trigger] r@[k]).entry < prev@.len(),
        decreases failed@.len() - i,
    {
        assert(fv.take(i + 1).drop_last() =~= fv.take(i as int));
        assert(fv.take(i + 1).last() == failed@[i as int]@);
        let slug = &failed[i];
        match find_entry(prev, slug) {
            Some(e) => {
                proof {
                    lemma_entry_index_bound(prev@, slug@);
                }
                let key = post_key_at(prev_sha, slug);
                let ghost r0 = r@;
                let ghost item = (e as int, key@);
                assert(entry_index(prev@, slug@) == Some(e as int));
                assert(fv.take(i + 1).last() == slug@);
                assert(carry_plan(fv.take(i + 1), prev@, opt_view(prev_sha))
                    == carry_plan(fv.take(i as int), prev@, opt_view(prev_sha)).push(item));
                r.push(CarryRequest { entry: e, key });
                assert(r@.map_values(|c: CarryRequest| request_view(c))
                    =~= r0.map_values(|c: CarryRequest| request_view(c)).push(item));
            },
            None => {
                assert(carry_plan(fv.take(i + 1), prev@, opt_view(prev_sha))
                    == carry_plan(fv.take(i as int), prev@, opt_view(prev_sha)));
            },
        }
        i += 1;
    }
    assert(fv.take(failed@.len() as int) =~= fv);
    r
}

proof fn lemma_entry_index_bound(entries: Seq<IndexEntry>, slug: Seq<char>)
    ensures
        entry_index(entries, slug) matches Some(i) ==> 0 <= i < entries.len() && entries[i].slug@ == slug,
    decreases entries.len(),
{
    if entries.len() > 0 {
        lemma_entry_index_bound(entries.drop_last(), slug);
    }
}

/// Any text other than `head`.
pub open spec fn other_than(head: Seq<char>) -> spec_fn(Seq<char>) -> bool {
    |s: Seq<char>| s != head
}

/// The history after publishing `head`: `head` first, then the earlier
/// entries other than `head`, at most [`KEEP_SNAPSHOTS`] in all.
pub open spec fn next_history(history: Seq<Seq<char>>, head: Seq<char>) -> Seq<Seq<char>> {
    let all = seq![head] + history.filter(other_than(head));
    if all.len() > KEEP_SNAPSHOTS {
        all.take(KEEP_SNAPSHOTS as int)
    } else {
        all
    }
}

/// The snapshot history after a flip to `head`.
pub fn retained_history(history: &[String], head: &str) -> (r: Vec<String>)
    ensures
        views(r@) == next_history(views(history@), head@),
{
    let ghost hv = views(history@);
    let ghost keep = other_than(head@);
    let mut r: Vec<String> = Vec::new();
    r.push(owned(head));
    let mut i: usize = 0;
    proof {
        reveal(Seq::filter);
    }
    assert(hv.take(0).filter(keep) =~= Seq::<Seq<char>>::empty());
    assert(views(r@) =~= seq![head@] + hv.take(0).filter(keep));
    while i < history.len()
        invariant
            i <= history@.len(),
            hv == views(history@),
            keep == other_than(head@),
            views(r@) == seq![head@] + hv.take(i as int).filter(keep),
        decreases history@.len() - i,
    {
        assert(hv.take(i + 1).drop_last() =~= hv.take(i as int));
        assert(hv.take(i + 1).last() == history@[i as int]@);
        proof {
            reveal(Seq::filter);
        }
        assert(keep(history@[i as int]@) == (history@[i as int]@ != head@));
        if !text_eq(&history[i], head) {
            let ghost r0 = r@;
            r.push(history[i].clone());
            assert(views(r@) =~= views(r0).push(history@[i as int]@));
            assert(hv.take(i + 1).filter(keep) == hv.take(i as int).filter(keep).push(history@[i as int]@));
        } else {
            assert(hv.take(i + 1).filter(keep) == hv.take(i as int).filter(keep));
        }
        i += 1;
    }
    assert(hv.take(history@.len() as int) =~= hv);
    if r.len() > KEEP_SNAPSHOTS {
        r.truncate(KEEP_SNAPSHOTS);
        assert(views(r@) =~= (seq![head@] + hv.filter(keep)).take(KEEP_SNAPSHOTS as int));
    }
    r
}

/// A key the sweep deletes: a snapshot key whose snapshot is neither in
/// the history nor the one `current` points at.
pub open spec fn swept(key: Seq<char>, history: Seq<Seq<char>>, current: Option<Seq<char>>) -> bool {
    match spec_snapshot_key_sha(key) {
        Some(sha) => !history.contains(sha) && current != Some(sha),
        None => false,
    }
}

/// The keys that [`swept`] holds of.
pub open spec fn swept_by(history: Seq<Seq<char>>, current: Option<Seq<char>>) -> spec_fn(Seq<char>) -> bool {
    |k: Seq<char>| swept(k, history, current)
}

/// The snapshot keys to delete after a flip: those of snapshots outside the
/// history and other than the one `current` points at now, which protects a
/// concurrent manual flip. Keys outside the snapshot space are never swept.
pub fn sweep_keys(keys: &[String], history: &[String], current: Option<&str>) -> (r: Vec<String>)
    ensures
        views(r@) == views(keys@).filter(swept_by(views(history@), opt_view(current))),
{
    let ghost kv = views(keys@);
    let ghost hv = views(history@);
    let ghost pred = swept_by(hv, opt_view(current));
    let mut r: Vec<String> = Vec::new();
    let mut i: usize = 0;
    proof {
        reveal(Seq::filter);
    }
    assert(kv.take(0).filter(pred) =~= Seq::<Seq<char>>::empty());
    while i < keys.len()
        invariant
            i <= keys@.len(),
            kv == views(keys@),
            hv == views(history@),
            pred == swept_by(hv, opt_view(current)),
            views(r@) == kv.take(i as int).filter(pred),
        decreases keys@.len() - i,
    {
        assert(kv.take(i + 1).drop_last() =~= kv.take(i as int));
        assert(kv.take(i + 1).last() == keys@[i as int]@);
        proof {
            reveal(Seq::filter);
        }
        let key = &keys[i];
        let delete = match snapshot_key_sha(key) {
            None => {
                assert(!pred(key@));
                false
            },
            Some(sha) => {
                let mut kept = false;
                match current {
                    Some(c) => {
                        if text_eq(c, sha) {
                            kept = true;
                        }
                    },
                    None => {},
                }
                let mut j: usize = 0;
                while j < history.len()
                    invariant
                        j <= history@.len(),
                        hv == views(history@),
                        kept <==> (opt_view(current) == Some(sha@) || exists|k: int| 0 <= k < j && hv[k] == sha@),
                    decreases history@.len() - j,
                {
                    assert(hv[j as int] == history@[j as int]@);
                    if text_eq(&history[j], sha) {
                        kept = true;
                    }
                    j += 1;
                }
                assert(kept <==> (opt_view(current) == Some(sha@) || hv.contains(sha@)));
                assert(pred(key@) == !kept);
                !kept
            },
        };
        if delete {
            let ghost r0 = r@;
            r.push(key.clone());
            assert(views(r@) =~= views(r0).push(key@));
        }
        i += 1;
    }
    assert(kv.take(keys@.len() as int) =~= kv);
    r
}


/// An outside step of one reconcile, in the order they run.
#[derive(Debug, Clone, Copy, PartialEq, Eq)]
pub enum ReconcileStep {
    /// Read HEAD, its tree and sources, the pointer and the previous index.
    Read,
    /// Write every post payload of the new snapshot.
    WritePosts,
    /// Write the new snapshot's index.
    WriteIndex,
    /// Point `current` at the new snapshot: this is the publish.
    Flip,
    /// Store the snapshot history, the new head first.
    RecordHistory,
    /// Read where `current` points now, to spare that snapshot too.
    ReadCurrent,
    /// List the snapshot keys.
    ListKeys,
    /// Delete the keys the sweep names.
    Sweep,
    /// Purge the cached URLs.
    Purge,
    /// Post the commit status.
    Report,
}

/// What the coordinator does once a step is done.
#[derive(Debug, Clone, Copy, PartialEq, Eq)]
pub enum NextMove {
    Run(ReconcileStep),
    /// The reconcile is over, published.
    Finished,
    /// The reconcile fails, for the alarm to retry; nothing after the
    /// failed step runs.
    Abort,
}

/// The move after `step`, which succeeded or not. Up to the flip every
/// failure aborts, so a failed read writes nothing and a failed write never
/// reaches the flip; after the flip the publish has happened and every
/// step is best-effort: a failed history write, pointer read or listing
/// skips the sweep and goes on to the purge.
pub open spec fn next_move(step: ReconcileStep, ok: bool) -> NextMove {
    match step {
        ReconcileStep::Read => if ok { NextMove::Run(ReconcileStep::WritePosts) } else { NextMove::Abort },
        ReconcileStep::WritePosts => if ok { NextMove::Run(ReconcileStep::WriteIndex) } else { NextMove::Abort },
        ReconcileStep::WriteIndex => if ok { NextMove::Run(ReconcileStep::Flip) } else { NextMove::Abort },
        ReconcileStep::Flip => if ok { NextMove::Run(ReconcileStep::RecordHistory) } else { NextMove::Abort },
        ReconcileStep::RecordHistory => if ok { NextMove::Run(ReconcileStep::ReadCurrent) } else { NextMove::Run(ReconcileStep::Purge) },
        ReconcileStep::ReadCurrent => if ok { NextMove::Run(ReconcileStep::ListKeys) } else { NextMove::Run(ReconcileStep::Purge) },
        ReconcileStep::ListKeys => if ok { NextMove::Run(ReconcileStep::Sweep) } else { NextMove::Run(ReconcileStep::Purge) },
        ReconcileStep::Sweep => NextMove::Run(ReconcileStep::Purge),
        ReconcileStep::Purge => NextMove::Run(ReconcileStep::Report),
        ReconcileStep::Report => NextMove::Finished,
    }
}

/// Decides the coordinator's next move from the step it just ran and
/// whether that step succeeded; the coordinator performs the step and
/// reports back.
pub fn after_step(step: ReconcileStep, ok: bool) -> (r: NextMove)
    ensures
        r == next_move(step, ok),
{
    let fallback = NextMove::Run(ReconcileStep::Purge);
    match step {
        ReconcileStep::Read => if ok { NextMove::Run(ReconcileStep::WritePosts) } else { NextMove::Abort },
        ReconcileStep::WritePosts => if ok { NextMove::Run(ReconcileStep::WriteIndex) } else { NextMove::Abort },
        ReconcileStep::WriteIndex => if ok { NextMove::Run(ReconcileStep::Flip) } else { NextMove::Abort },
        ReconcileStep::Flip => if ok { NextMove::Run(ReconcileStep::RecordHistory) } else { NextMove::Abort },
        ReconcileStep::RecordHistory => if ok { NextMove::Run(ReconcileStep::ReadCurrent) } else { fallback },
        ReconcileStep::ReadCurrent => if ok { NextMove::Run(ReconcileStep::ListKeys) } else { fallback },
        ReconcileStep::ListKeys => if ok { NextMove::Run(ReconcileStep::Sweep) } else { fallback },
        ReconcileStep::Sweep => fallback,
        ReconcileStep::Purge => NextMove::Run(ReconcileStep::Report),
        ReconcileStep::Report => NextMove::Finished,
    }
}

/// The publish writes in order: post payloads only after a successful
/// read, the index only once every payload landed, and the flip only once
/// the index landed; so a published index never names a missing payload.
pub proof fn law_writes_land_in_order(step: ReconcileStep, ok: bool)
    ensures
        next_move(step, ok) == NextMove::Run(ReconcileStep::WritePosts) <==> (step == ReconcileStep::Read && ok),
        next_move(step, ok) == NextMove::Run(ReconcileStep::WriteIndex) <==> (step == ReconcileStep::WritePosts && ok),
        next_move(step, ok) == NextMove::Run(ReconcileStep::Flip) <==> (step == ReconcileStep::WriteIndex && ok),
{
}

/// A failure before the flip aborts the reconcile, so nothing is written
/// after a failed read and nothing is published after a failed write;
/// once the flip landed, no failure aborts.
pub proof fn law_failures_before_the_flip_abort(step: ReconcileStep, ok: bool)
    ensures
        next_move(step, ok) == NextMove::Abort <==> (!ok && (step == ReconcileStep::Read || step == ReconcileStep::WritePosts
            || step == ReconcileStep::WriteIndex || step == ReconcileStep::Flip)),
{
}

/// The sweep runs only after the history was stored, the pointer read and
/// the keys listed; a failure of any of them skips it, and the purge still
/// runs.
pub proof fn law_sweep_needs_the_stored_history(step: ReconcileStep, ok: bool)
    ensures
        next_move(step, ok) == NextMove::Run(ReconcileStep::Sweep) <==> (step == ReconcileStep::ListKeys && ok),
        next_move(step, ok) == NextMove::Run(ReconcileStep::ListKeys) <==> (step == ReconcileStep::ReadCurrent && ok),
        next_move(step, ok) == NextMove::Run(ReconcileStep::ReadCurrent) <==> (step == ReconcileStep::RecordHistory && ok),
        next_move(ReconcileStep::RecordHistory, false) == NextMove::Run(ReconcileStep::Purge),
{
}

/// After a flip to `head`, the history starts with `head`, names it once,
/// and holds at most [`KEEP_SNAPSHOTS`] snapshots.
pub proof fn law_history_keeps_head_first(history: Seq<Seq<char>>, head: Seq<char>)
    ensures
        next_history(history, head).len() >= 1,
        next_history(history, head)[0] == head,
        next_history(history, head).len() <= KEEP_SNAPSHOTS,
        forall|i: int| 1 <= i < next_history(history, head).len() ==> #[trigger] next_history(history, head)[i] != head,
{
    broadcast use vstd::seq_lib::group_filter_ensures;

    let rest = history.filter(other_than(head));
    let all = seq![head] + rest;
    assert forall|i: int| 1 <= i < next_history(history, head).len() implies #[trigger] next_history(history, head)[i] != head by {
        assert(next_history(history, head)[i] == all[i]);
        assert(all[i] == rest[i - 1]);
        assert(other_than(head)(rest[i - 1]));
    }
}

/// The snapshot just published is never swept: none of its keys is
/// deleted by the sweep that follows its flip, whatever `current` says.
pub proof fn law_sweep_spares_the_published_snapshot(
    history: Seq<Seq<char>>,
    head: Seq<char>,
    current: Option<Seq<char>>,
    key: Seq<char>,
)
    requires
        spec_snapshot_key_sha(key) == Some(head),
    ensures
        !swept(key, next_history(history, head), current),
{
    law_history_keeps_head_first(history, head);
    assert(next_history(history, head).contains(head));
}

/// Keys outside the snapshot space are never swept, whatever the history.
pub proof fn law_sweep_spares_other_keys(history: Seq<Seq<char>>, current: Option<Seq<char>>, key: Seq<char>)
    requires
        !crate::text::has_prefix(key, "snapshot:"@),
    ensures
        !swept(key, history, current),
{
    crate::content::routes::law_snapshot_key_sha_needs_the_key_space(key);
}

} // verus!
