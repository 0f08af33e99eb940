//! Which tags to add to and remove from a message, given what the rules want,
//! what they forbid, what the message has, and which tags the rules manage.

use vstd::prelude::*;
use crate::tag_set::{TagSet, views, sorted_strict, lemma_filter_sorted};

verus! {

/// A desired tag is added when it is neither forbidden nor already present.
pub open spec fn add_pred(forced: Set<Seq<char>>, actual: Set<Seq<char>>) -> spec_fn(Seq<char>) -> bool {
    |t: Seq<char>| !forced.contains(t) && !actual.contains(t)
}

/// A present tag is removed when it is forbidden, or managed and not desired.
pub open spec fn remove_pred(
    desired: Set<Seq<char>>,
    forced: Set<Seq<char>>,
    managed: Set<Seq<char>>,
) -> spec_fn(Seq<char>) -> bool {
    |t: Seq<char>| forced.contains(t) || (managed.contains(t) && !desired.contains(t))
}

/// The tags to add: desired, minus the forbidden ones, minus those present.
pub open spec fn additions(
    desired: Set<Seq<char>>,
    forced: Set<Seq<char>>,
    actual: Set<Seq<char>>,
) -> Set<Seq<char>> {
    desired.difference(forced).difference(actual)
}

/// The tags to remove: the forbidden ones that are present, and the managed
/// ones that are present but not (effectively) desired.
pub open spec fn removals(
    desired: Set<Seq<char>>,
    forced: Set<Seq<char>>,
    actual: Set<Seq<char>>,
    managed: Set<Seq<char>>,
) -> Set<Seq<char>> {
    forced.intersect(actual).union(
        actual.difference(desired.difference(forced)).intersect(managed).difference(forced),
    )
}

/// Keeps the elements of `src` (in order) that pass the test described by the
/// three flags: `want_in_a`, `want_out_b`, and membership in `c`.
fn collect_additions(src: &TagSet, forced: &TagSet, actual: &TagSet) -> (r: Vec<String>)
    requires
        src.wf(),
        forced.wf(),
        actual.wf(),
    ensures
        views(r@) == src.seq().filter(add_pred(forced@, actual@)),
{
    broadcast use vstd::seq_lib::group_seq_properties;

    let items = src.as_vec();
    let ghost s = src.seq();
    let ghost p = add_pred(forced@, actual@);
    let mut r: Vec<String> = Vec::new();
    let mut i: usize = 0;
    while i < items.len()
        invariant
            i <= items.len(),
            views(items@) == s,
            s == src.seq(),
            forced.wf(),
            actual.wf(),
            p == add_pred(forced@, actual@),
            views(r@) == s.take(i as int).filter(p),
        decreases items.len() - i,
    {
        let t = &items[i];
        let keep = !forced.contains(t.as_str()) && !actual.contains(t.as_str());
        proof {
            s.lemma_take_succ_push(i as int);
            s.take(i as int).lemma_filter_push(s[i as int], p);
        }
        if keep {
            r.push(t.clone());
            assert(views(r@) =~= views(r@).drop_last().push(s[i as int]));
        }
        i += 1;
    }
    assert(s.take(items.len() as int) =~= s);
    r
}

fn collect_removals(actual: &TagSet, desired: &TagSet, forced: &TagSet, managed: &TagSet) -> (r:
    Vec<String>)
    requires
        actual.wf(),
        desired.wf(),
        forced.wf(),
        managed.wf(),
    ensures
        views(r@) == actual.seq().filter(remove_pred(desired@, forced@, managed@)),
{
    broadcast use vstd::seq_lib::group_seq_properties;

    let items = actual.as_vec();
    let ghost s = actual.seq();
    let ghost p = remove_pred(desired@, forced@, managed@);
    let mut r: Vec<String> = Vec::new();
    let mut i: usize = 0;
    while i < items.len()
        invariant
            i <= items.len(),
            views(items@) == s,
            s == actual.seq(),
            desired.wf(),
            forced.wf(),
            managed.wf(),
            p == remove_pred(desired@, forced@, managed@),
            views(r@) == s.take(i as int).filter(p),
        decreases items.len() - i,
    {
        let t = &items[i];
        let keep = forced.contains(t.as_str()) || (managed.contains(t.as_str())
            && !desired.contains(t.as_str()));
        proof {
            s.lemma_take_succ_push(i as int);
            s.take(i as int).lemma_filter_push(s[i as int], p);
        }
        if keep {
            r.push(t.clone());
            assert(views(r@) =~= views(r@).drop_last().push(s[i as int]));
        }
        i += 1;
    }
    assert(s.take(items.len() as int) =~= s);
    r
}

/// Compute which tags should be added and which removed.
///
/// Forced removals win over desired additions; tags outside `managed` are
/// only ever removed when forced. Both lists come out in ascending order.
pub fn compute_tag_diff(
    desired_add: &TagSet,
    forced_remove: &TagSet,
    actual: &TagSet,
    managed: &TagSet,
) -> (r: (Vec<String>, Vec<String>))
    requires
        desired_add.wf(),
        forced_remove.wf(),
        actual.wf(),
        managed.wf(),
    ensures
        sorted_strict(views(r.0@)),
        sorted_strict(views(r.1@)),
        views(r.0@).to_set() == additions(desired_add@, forced_remove@, actual@),
        views(r.1@).to_set() == removals(desired_add@, forced_remove@, actual@, managed@),
{
    let to_add = collect_additions(desired_add, forced_remove, actual);
    let to_remove = collect_removals(actual, desired_add, forced_remove, managed);
    proof {
        desired_add.lemma_seq_view();
        actual.lemma_seq_view();
        lemma_filter_sorted(desired_add.seq(), add_pred(forced_remove@, actual@));
        lemma_filter_sorted(actual.seq(), remove_pred(desired_add@, forced_remove@, managed@));
        assert(views(to_add@).to_set() =~= additions(desired_add@, forced_remove@, actual@));
        assert(views(to_remove@).to_set() =~= removals(
            desired_add@,
            forced_remove@,
            actual@,
            managed@,
        ));
    }
    (to_add, to_remove)
}

} // verus!

verus! {

/// The tag set a message ends up with once a diff is applied.
pub open spec fn apply_diff(
    actual: Set<Seq<char>>,
    to_add: Set<Seq<char>>,
    to_remove: Set<Seq<char>>,
) -> Set<Seq<char>> {
    actual.union(to_add).difference(to_remove)
}

/// No tag is both added and removed, forbidden tags are never added, and a
/// tag that is neither managed nor forbidden is never removed.
pub proof fn law_diff_is_consistent(
    desired: Set<Seq<char>>,
    forced: Set<Seq<char>>,
    actual: Set<Seq<char>>,
    managed: Set<Seq<char>>,
)
    ensures
        additions(desired, forced, actual).disjoint(removals(desired, forced, actual, managed)),
        forall|t: Seq<char>| forced.contains(t) ==> !additions(desired, forced, actual).contains(t),
        forall|t: Seq<char>|
            forced.contains(t) && actual.contains(t) ==> removals(
                desired,
                forced,
                actual,
                managed,
            ).contains(t),
        forall|t: Seq<char>|
            !managed.contains(t) && !forced.contains(t) ==> !removals(
                desired,
                forced,
                actual,
                managed,
            ).contains(t),
{
}

/// Reconciliation is idempotent: once the computed diff has been applied,
/// computing it again for the same rules finds nothing to add or remove.
pub proof fn law_diff_idempotent(
    desired: Set<Seq<char>>,
    forced: Set<Seq<char>>,
    actual: Set<Seq<char>>,
    managed: Set<Seq<char>>,
)
    ensures
        ({
            let after = apply_diff(
                actual,
                additions(desired, forced, actual),
                removals(desired, forced, actual, managed),
            );
            &&& additions(desired, forced, after) == Set::<Seq<char>>::empty()
            &&& removals(desired, forced, after, managed) == Set::<Seq<char>>::empty()
            &&& after == actual.difference(forced).difference(managed.difference(desired)).union(
                desired.difference(forced),
            )
        }),
{
    let after = apply_diff(
        actual,
        additions(desired, forced, actual),
        removals(desired, forced, actual, managed),
    );
    assert(additions(desired, forced, after) =~= Set::<Seq<char>>::empty());
    assert(removals(desired, forced, after, managed) =~= Set::<Seq<char>>::empty());
    assert(after =~= actual.difference(forced).difference(managed.difference(desired)).union(
        desired.difference(forced),
    ));
}

} // verus!
