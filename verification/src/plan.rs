use vstd::prelude::*;

use crate::select::vec_contains_string;

verus! {

/// The switches a sync run honours: previewing, verbosity, and whether
/// only the install half or only the removal half of a plan is applied.
pub struct SyncOptions {
    pub dry_run: bool,
    pub verbose: bool,
    pub quiet: bool,
    pub no_confirm: bool,
    pub only_install: bool,
    pub only_remove: bool,
}

/// The actions that bring the system to the desired state: what to
/// install from each source and what to remove. Derived afresh on every
/// run from the desired sets and the live system state.
#[derive(Debug)]
pub struct ActionPlan {
    pub to_install_official: Vec<String>,
    pub to_install_aur: Vec<String>,
    pub to_remove: Vec<String>,
}

/// The desired names that are not installed, in desired order.
pub open spec fn missing_from(desired: Seq<Seq<char>>, installed: Seq<Seq<char>>) -> Seq<
    Seq<char>,
>
    decreases desired.len(),
{
    if desired.len() == 0 {
        Seq::empty()
    } else {
        let prefix = missing_from(desired.drop_last(), installed);
        if !installed.contains(desired.last()) {
            prefix.push(desired.last())
        } else {
            prefix
        }
    }
}

/// The orphan candidates that no desired set wants kept, in candidate
/// order.
pub open spec fn unwanted(
    orphans: Seq<Seq<char>>,
    desired_official: Seq<Seq<char>>,
    desired_aur: Seq<Seq<char>>,
) -> Seq<Seq<char>>
    decreases orphans.len(),
{
    if orphans.len() == 0 {
        Seq::empty()
    } else {
        let prefix = unwanted(orphans.drop_last(), desired_official, desired_aur);
        if !desired_official.contains(orphans.last()) && !desired_aur.contains(orphans.last()) {
            prefix.push(orphans.last())
        } else {
            prefix
        }
    }
}

/// The desired names not yet installed, in order.
#[verifier::loop_isolation(false)]
fn filter_missing(desired: &Vec<String>, installed: &Vec<String>) -> (out: Vec<String>)
    ensures
        out.deep_view() == missing_from(desired.deep_view(), installed.deep_view()),
{
    let mut out: Vec<String> = Vec::new();
    proof {
        assert(desired.deep_view().take(0) =~= Seq::<Seq<char>>::empty());
    }
    let mut i: usize = 0;
    while i < desired.len()
        invariant
            i <= desired.len(),
            out.deep_view() == missing_from(
                desired.deep_view().take(i as int),
                installed.deep_view(),
            ),
        decreases desired.len() - i,
    {
        proof {
            assert(desired.deep_view().take(i + 1).drop_last() =~= desired.deep_view().take(
                i as int,
            ));
            assert(desired.deep_view().take(i + 1).last() == desired.deep_view()[i as int]);
        }
        let ghost old_out = out.deep_view();
        if !vec_contains_string(installed, &desired[i]) {
            out.push(desired[i].clone());
            proof {
                assert(out.deep_view() =~= old_out.push(desired.deep_view()[i as int]));
            }
        }
        i += 1;
    }
    proof {
        assert(desired.deep_view().take(desired.len() as int) =~= desired.deep_view());
    }
    out
}

/// The orphan candidates kept by neither desired list, in order.
#[verifier::loop_isolation(false)]
fn filter_unwanted(
    orphans: &Vec<String>,
    desired_official: &Vec<String>,
    desired_aur: &Vec<String>,
) -> (out: Vec<String>)
    ensures
        out.deep_view() == unwanted(
            orphans.deep_view(),
            desired_official.deep_view(),
            desired_aur.deep_view(),
        ),
{
    let mut out: Vec<String> = Vec::new();
    proof {
        assert(orphans.deep_view().take(0) =~= Seq::<Seq<char>>::empty());
    }
    let mut i: usize = 0;
    while i < orphans.len()
        invariant
            i <= orphans.len(),
            out.deep_view() == unwanted(
                orphans.deep_view().take(i as int),
                desired_official.deep_view(),
                desired_aur.deep_view(),
            ),
        decreases orphans.len() - i,
    {
        proof {
            assert(orphans.deep_view().take(i + 1).drop_last() =~= orphans.deep_view().take(
                i as int,
            ));
            assert(orphans.deep_view().take(i + 1).last() == orphans.deep_view()[i as int]);
        }
        let ghost old_out = out.deep_view();
        if !vec_contains_string(desired_official, &orphans[i]) && !vec_contains_string(
            desired_aur,
            &orphans[i],
        ) {
            out.push(orphans[i].clone());
            proof {
                assert(out.deep_view() =~= old_out.push(orphans.deep_view()[i as int]));
            }
        }
        i += 1;
    }
    proof {
        assert(orphans.deep_view().take(orphans.len() as int) =~= orphans.deep_view());
    }
    out
}

/// Compute the action plan from the desired sets and the live state: the
/// desired names not yet installed go on the install lists, in desired
/// order per source; the orphan candidates that neither desired list
/// holds go on the removal list, in candidate order. A pure function of
/// its four inputs.
pub fn plan(
    desired_official: &Vec<String>,
    desired_aur: &Vec<String>,
    installed: &Vec<String>,
    orphan_candidates: &Vec<String>,
) -> (p: ActionPlan)
    ensures
        p.to_install_official.deep_view() == missing_from(
            desired_official.deep_view(),
            installed.deep_view(),
        ),
        p.to_install_aur.deep_view() == missing_from(
            desired_aur.deep_view(),
            installed.deep_view(),
        ),
        p.to_remove.deep_view() == unwanted(
            orphan_candidates.deep_view(),
            desired_official.deep_view(),
            desired_aur.deep_view(),
        ),
{
    ActionPlan {
        to_install_official: filter_missing(desired_official, installed),
        to_install_aur: filter_missing(desired_aur, installed),
        to_remove: filter_unwanted(orphan_candidates, desired_official, desired_aur),
    }
}

impl ActionPlan {
    /// True exactly when the plan asks for nothing: no installs from
    /// either source and no removals. This is the state that
    /// short-circuits any destructive action upstream.
    pub fn is_empty(&self) -> (b: bool)
        ensures
            b == (self.to_install_official@.len() == 0 && self.to_install_aur@.len() == 0
                && self.to_remove@.len() == 0),
    {
        self.to_install_official.len() == 0 && self.to_install_aur.len() == 0
            && self.to_remove.len() == 0
    }
}

/// Planning is idempotent: on a system already converged — every desired
/// name installed, every orphan candidate still wanted by some desired
/// list — the plan is empty. In particular, applying a computed plan and
/// planning again asks for nothing further.
pub proof fn lemma_plan_idempotent(
    desired_official: Seq<Seq<char>>,
    desired_aur: Seq<Seq<char>>,
    installed: Seq<Seq<char>>,
    orphans: Seq<Seq<char>>,
)
    requires
        forall|i: int|
            0 <= i < desired_official.len() ==> installed.contains(#[trigger] desired_official[i]),
        forall|i: int|
            0 <= i < desired_aur.len() ==> installed.contains(#[trigger] desired_aur[i]),
        forall|i: int|
            0 <= i < orphans.len() ==> desired_official.contains(#[trigger] orphans[i])
                || desired_aur.contains(orphans[i]),
    ensures
        missing_from(desired_official, installed) == Seq::<Seq<char>>::empty(),
        missing_from(desired_aur, installed) == Seq::<Seq<char>>::empty(),
        unwanted(orphans, desired_official, desired_aur) == Seq::<Seq<char>>::empty(),
{
    lemma_missing_from_none(desired_official, installed);
    lemma_missing_from_none(desired_aur, installed);
    lemma_unwanted_none(orphans, desired_official, desired_aur);
}

proof fn lemma_missing_from_none(desired: Seq<Seq<char>>, installed: Seq<Seq<char>>)
    requires
        forall|i: int| 0 <= i < desired.len() ==> installed.contains(#[trigger] desired[i]),
    ensures
        missing_from(desired, installed) == Seq::<Seq<char>>::empty(),
    decreases desired.len(),
{
    if desired.len() == 0 {
    } else {
        assert(installed.contains(desired[desired.len() - 1]));
        assert forall|i: int| 0 <= i < desired.drop_last().len() implies installed.contains(
            #[trigger] desired.drop_last()[i],
        ) by {
            assert(desired.drop_last()[i] == desired[i]);
        }
        lemma_missing_from_none(desired.drop_last(), installed);
    }
}

proof fn lemma_unwanted_none(
    orphans: Seq<Seq<char>>,
    desired_official: Seq<Seq<char>>,
    desired_aur: Seq<Seq<char>>,
)
    requires
        forall|i: int|
            0 <= i < orphans.len() ==> desired_official.contains(#[trigger] orphans[i])
                || desired_aur.contains(orphans[i]),
    ensures
        unwanted(orphans, desired_official, desired_aur) == Seq::<Seq<char>>::empty(),
    decreases orphans.len(),
{
    if orphans.len() == 0 {
    } else {
        assert(desired_official.contains(orphans[orphans.len() - 1]) || desired_aur.contains(
            orphans[orphans.len() - 1],
        ));
        assert forall|i: int| 0 <= i < orphans.drop_last().len() implies desired_official.contains(
            #[trigger] orphans.drop_last()[i],
        ) || desired_aur.contains(orphans.drop_last()[i]) by {
            assert(orphans.drop_last()[i] == orphans[i]);
        }
        lemma_unwanted_none(orphans.drop_last(), desired_official, desired_aur);
    }
}

} // verus!
