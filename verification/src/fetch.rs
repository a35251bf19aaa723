//! The join that drives the fetch stage.
//!
//! For each image identifier, in order: an identifier with no region group
//! is skipped outright (never fetched); one with regions but no URL is a
//! per-image failure recorded for the log; one with both becomes a fetch
//! task carrying its URL and its regions.

use vstd::prelude::*;
use crate::boxes::{BoxIndex, regions_wf, spec_lookup_boxes};
use crate::crop::Region;
use crate::urls::{UrlIndex, spec_lookup};

verus! {

/// One image to fetch: its identifier, its URL, and its regions.
pub struct FetchTask {
    pub id: String,
    pub url: String,
    pub regions: Vec<Region>,
}

/// The view of a fetch task.
pub open spec fn task_view(t: FetchTask) -> (Seq<char>, Seq<char>, Seq<Region>) {
    (t.id@, t.url@, t.regions@)
}

/// The views of a task list.
pub open spec fn task_views(s: Seq<FetchTask>) -> Seq<(Seq<char>, Seq<char>, Seq<Region>)> {
    s.map_values(|t: FetchTask| task_view(t))
}

/// The fetch work joined from the indices: the tasks to run, in identifier
/// order, and the identifiers whose URL is missing, to be reported.
pub struct FetchPlan {
    pub tasks: Vec<FetchTask>,
    pub missing_url: Vec<String>,
}

/// What joining the identifier sequence with the two indices yields: per
/// identifier, no trace without regions, a missing-URL record without a URL,
/// and otherwise a task with that URL and those regions.
pub open spec fn spec_plan_fetches(
    ids: Seq<Seq<char>>,
    urls: Seq<(Seq<char>, Seq<char>)>,
    boxes: Seq<(Seq<char>, Seq<Region>)>,
) -> (Seq<(Seq<char>, Seq<char>, Seq<Region>)>, Seq<Seq<char>>)
    decreases ids.len(),
{
    if ids.len() == 0 {
        (Seq::empty(), Seq::empty())
    } else {
        let p = spec_plan_fetches(ids.drop_last(), urls, boxes);
        let id = ids.last();
        match spec_lookup_boxes(boxes, id) {
            None => p,
            Some(regs) => match spec_lookup(urls, id) {
                None => (p.0, p.1.push(id)),
                Some(u) => (p.0.push((id, u, regs)), p.1),
            },
        }
    }
}

/// Every planned task carries an identifier from the input together with
/// exactly its indexed URL and its indexed region group, and every recorded
/// missing-URL identifier has regions but no URL: an identifier with no
/// regions is never fetched.
pub proof fn lemma_plan_fetches_sound(
    ids: Seq<Seq<char>>,
    urls: Seq<(Seq<char>, Seq<char>)>,
    boxes: Seq<(Seq<char>, Seq<Region>)>,
)
    ensures
        forall|t: int|
            0 <= t < spec_plan_fetches(ids, urls, boxes).0.len() ==> {
                let task = #[trigger] spec_plan_fetches(ids, urls, boxes).0[t];
                &&& ids.contains(task.0)
                &&& spec_lookup(urls, task.0) == Some(task.1)
                &&& spec_lookup_boxes(boxes, task.0) == Some(task.2)
            },
        forall|t: int|
            0 <= t < spec_plan_fetches(ids, urls, boxes).1.len() ==> {
                let id = #[trigger] spec_plan_fetches(ids, urls, boxes).1[t];
                &&& ids.contains(id)
                &&& spec_lookup(urls, id) is None
                &&& spec_lookup_boxes(boxes, id) is Some
            },
    decreases ids.len(),
{
    if ids.len() > 0 {
        lemma_plan_fetches_sound(ids.drop_last(), urls, boxes);
        let whole = spec_plan_fetches(ids, urls, boxes);
        let p = spec_plan_fetches(ids.drop_last(), urls, boxes);
        assert(ids[ids.len() - 1] == ids.last());
        assert forall|x: Seq<char>| ids.drop_last().contains(x) implies ids.contains(x) by {
            let k = choose|k: int|
                0 <= k < ids.drop_last().len() && #[trigger] ids.drop_last()[k] == x;
            assert(ids[k] == x);
        }
        assert forall|t: int| 0 <= t < whole.0.len() implies {
            let task = #[trigger] whole.0[t];
            &&& ids.contains(task.0)
            &&& spec_lookup(urls, task.0) == Some(task.1)
            &&& spec_lookup_boxes(boxes, task.0) == Some(task.2)
        } by {
            if t < p.0.len() {
                assert(whole.0[t] == p.0[t]);
            }
        }
        assert forall|t: int| 0 <= t < whole.1.len() implies {
            let id = #[trigger] whole.1[t];
            &&& ids.contains(id)
            &&& spec_lookup(urls, id) is None
            &&& spec_lookup_boxes(boxes, id) is Some
        } by {
            if t < p.1.len() {
                assert(whole.1[t] == p.1[t]);
            }
        }
    }
}

/// Joins the identifiers with the URL and box indices into the fetch plan.
pub fn plan_fetches(ids: &Vec<String>, urls: &UrlIndex, boxes: &BoxIndex) -> (plan: FetchPlan)
    requires
        boxes.wf(),
    ensures
        task_views(plan.tasks@) == spec_plan_fetches(
            ids.deep_view(),
            urls.view_entries(),
            boxes.view_entries(),
        ).0,
        plan.missing_url.deep_view() == spec_plan_fetches(
            ids.deep_view(),
            urls.view_entries(),
            boxes.view_entries(),
        ).1,
        forall|t: int| 0 <= t < plan.tasks@.len() ==> regions_wf((#[trigger] plan.tasks@[t]).regions@),
{
    let ghost s = ids.deep_view();
    let mut tasks: Vec<FetchTask> = Vec::new();
    let mut missing_url: Vec<String> = Vec::new();
    let mut i: usize = 0;
    proof {
        assert(task_views(tasks@) =~= spec_plan_fetches(
            s.take(0),
            urls.view_entries(),
            boxes.view_entries(),
        ).0);
        assert(missing_url.deep_view() =~= spec_plan_fetches(
            s.take(0),
            urls.view_entries(),
            boxes.view_entries(),
        ).1);
    }
    while i < ids.len()
        invariant
            s == ids.deep_view(),
            s.len() == ids@.len(),
            0 <= i <= ids@.len(),
            boxes.wf(),
            task_views(tasks@) == spec_plan_fetches(
                s.take(i as int),
                urls.view_entries(),
                boxes.view_entries(),
            ).0,
            missing_url.deep_view() == spec_plan_fetches(
                s.take(i as int),
                urls.view_entries(),
                boxes.view_entries(),
            ).1,
            forall|t: int|
                0 <= t < tasks@.len() ==> regions_wf((#[trigger] tasks@[t]).regions@),
        decreases ids@.len() - i,
    {
        proof {
            assert(ids.deep_view()[i as int] == ids@[i as int]@);
            assert(s.take(i + 1).drop_last() =~= s.take(i as int));
            assert(s.take(i + 1).last() == s[i as int]);
        }
        let id = &ids[i];
        let ghost old_tasks = task_views(tasks@);
        let ghost old_missing = missing_url.deep_view();
        match boxes.lookup(id) {
            None => {},
            Some(regions) => {
                match urls.lookup(id) {
                    None => {
                        missing_url.push(id.clone());
                        proof {
                            assert(missing_url.deep_view() =~= old_missing.push(s[i as int]));
                        }
                    },
                    Some(url) => {
                        let ghost task_v = (s[i as int], url@, regions@);
                        tasks.push(FetchTask { id: id.clone(), url, regions });
                        proof {
                            assert(task_views(tasks@) =~= old_tasks.push(task_v));
                        }
                    },
                }
            },
        }
        i = i + 1;
    }
    proof {
        assert(s.take(s.len() as int) =~= s);
    }
    FetchPlan { tasks, missing_url }
}

} // verus!
