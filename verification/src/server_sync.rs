//! Saving what the server holds: the order in which the workspaces that the
//! server sent, their apps and their views are written.

use crate::entities::{App, Workspace};
use vstd::prelude::*;

verus! {

/// One write. The numbers are places: of the workspace in the list, of the
/// app in the workspace, of the view in the app.
#[derive(Clone, Copy, Debug, PartialEq, Eq, Structural)]
pub enum SaveStep {
    Workspace(usize),
    App(usize, usize),
    View(usize, usize, usize),
}

/// The writes for the first `n` views of app `a` in workspace `w`.
pub open spec fn view_steps(w: usize, a: usize, n: nat) -> Seq<SaveStep> {
    Seq::new(n, |v: int| SaveStep::View(w, a, v as usize))
}

/// The writes for the apps of workspace `w`: each app, then its views.
pub open spec fn app_steps(w: usize, apps: Seq<App>) -> Seq<SaveStep>
    decreases apps.len(),
{
    if apps.len() == 0 {
        Seq::empty()
    } else {
        let a = (apps.len() - 1) as usize;
        app_steps(w, apps.drop_last()).push(SaveStep::App(w, a)) + view_steps(
            w,
            a,
            apps.last().belongings.items@.len(),
        )
    }
}

/// The writes for the workspaces: each workspace, then its apps with their views.
pub open spec fn save_steps(workspaces: Seq<Workspace>) -> Seq<SaveStep>
    decreases workspaces.len(),
{
    if workspaces.len() == 0 {
        Seq::empty()
    } else {
        let w = (workspaces.len() - 1) as usize;
        save_steps(workspaces.drop_last()).push(SaveStep::Workspace(w)) + app_steps(
            w,
            workspaces.last().apps.items@,
        )
    }
}

/// Whether saving ends when the step fails. A workspace that cannot be
/// written ends it; an app or a view that cannot be written is passed over.
pub fn is_required(step: SaveStep) -> (b: bool)
    ensures
        b == (step is Workspace),
{
    match step {
        SaveStep::Workspace(_) => true,
        _ => false,
    }
}

/// The writes for the workspaces that the server sent, in their order.
pub fn save_plan(workspaces: &Vec<Workspace>) -> (plan: Vec<SaveStep>)
    ensures
        plan@ == save_steps(workspaces@),
{
    let mut plan: Vec<SaveStep> = Vec::new();
    let mut w: usize = 0;
    proof {
        assert(workspaces@.take(0) =~= Seq::<Workspace>::empty());
    }
    while w < workspaces.len()
        invariant
            w <= workspaces@.len(),
            plan@ == save_steps(workspaces@.take(w as int)),
        decreases workspaces@.len() - w,
    {
        let apps = &workspaces[w].apps.items;
        let ghost start = plan@;
        proof {
            let upto = workspaces@.take(w + 1);
            assert(upto.drop_last() =~= workspaces@.take(w as int));
            assert(upto.last() == workspaces@[w as int]);
            assert(apps@.take(0) =~= Seq::<App>::empty());
        }
        plan.push(SaveStep::Workspace(w));
        let mut a: usize = 0;
        proof {
            assert(plan@ =~= start.push(SaveStep::Workspace(w)) + app_steps(w, apps@.take(0)));
        }
        while a < apps.len()
            invariant
                a <= apps@.len(),
                plan@ == start.push(SaveStep::Workspace(w)) + app_steps(w, apps@.take(a as int)),
            decreases apps@.len() - a,
        {
            let views = apps[a].belongings.items.len();
            let ghost before = app_steps(w, apps@.take(a as int));
            proof {
                let upto = apps@.take(a + 1);
                assert(upto.drop_last() =~= apps@.take(a as int));
                assert(upto.last() == apps@[a as int]);
            }
            plan.push(SaveStep::App(w, a));
            let mut v: usize = 0;
            proof {
                assert(plan@ =~= start.push(SaveStep::Workspace(w)) + (before.push(
                    SaveStep::App(w, a),
                ) + view_steps(w, a, 0)));
            }
            while v < views
                invariant
                    v <= views,
                    plan@ == start.push(SaveStep::Workspace(w)) + (before.push(SaveStep::App(w, a))
                        + view_steps(w, a, v as nat)),
                decreases views - v,
            {
                plan.push(SaveStep::View(w, a, v));
                proof {
                    assert(view_steps(w, a, (v + 1) as nat) =~= view_steps(w, a, v as nat).push(
                        SaveStep::View(w, a, v),
                    ));
                    assert(plan@ =~= start.push(SaveStep::Workspace(w)) + (before.push(
                        SaveStep::App(w, a),
                    ) + view_steps(w, a, (v + 1) as nat)));
                }
                v = v + 1;
            }
            a = a + 1;
        }
        proof {
            assert(apps@.take(a as int) =~= apps@);
        }
        w = w + 1;
    }
    proof {
        assert(workspaces@.take(w as int) =~= workspaces@);
    }
    plan
}

} // verus!
