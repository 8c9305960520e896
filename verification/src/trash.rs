//! What the trash means for apps: which app can be read, and what follows
//! for the apps of a trash event.

use crate::entities::{contains_id, has_id, App};
use vstd::prelude::*;

verus! {

/// What happened to the apps of a trash event.
#[derive(Clone, Copy, Debug, PartialEq, Eq, Structural)]
pub enum TrashEventKind {
    /// The apps were put into the trash.
    NewTrash,
    /// The apps were taken back out of the trash.
    Putback,
    /// The apps were deleted for good.
    Delete,
}

/// What is to be done for a trash event.
#[derive(Debug, PartialEq, Eq)]
pub struct TrashPlan {
    /// The ids of the apps to delete, in the order of the event.
    pub delete: Vec<String>,
    /// The ids of the workspaces whose apps have changed.
    pub notify: Vec<String>,
}

/// The texts of a list of ids.
pub open spec fn ids_view(ids: Seq<String>) -> Seq<Seq<char>> {
    ids.map_values(|s: String| s@)
}

/// The ids of the apps.
pub open spec fn app_ids(apps: Seq<App>) -> Seq<Seq<char>> {
    apps.map_values(|a: App| a.id@)
}

/// The workspace ids of the apps.
pub open spec fn workspace_ids(apps: Seq<App>) -> Seq<Seq<char>> {
    apps.map_values(|a: App| a.workspace_id@)
}

/// The ids without repetitions, each at the place where it comes first.
pub open spec fn distinct(ids: Seq<Seq<char>>) -> Seq<Seq<char>>
    decreases ids.len(),
{
    if ids.len() == 0 {
        Seq::empty()
    } else {
        let before = distinct(ids.drop_last());
        if before.contains(ids.last()) {
            before
        } else {
            before.push(ids.last())
        }
    }
}

/// Among ids, `has_id` is membership of the text.
pub proof fn lemma_has_id(ids: Seq<String>, id: Seq<char>)
    ensures
        has_id(ids, id) == ids_view(ids).contains(id),
{
    if has_id(ids, id) {
        let i = choose|i: int| 0 <= i < ids.len() && (#[trigger] ids[i])@ == id;
        assert(ids_view(ids)[i] == id);
    }
    if ids_view(ids).contains(id) {
        let i = choose|i: int| 0 <= i < ids_view(ids).len() && ids_view(ids)[i] == id;
        assert(ids[i]@ == id);
    }
}

/// The app as it can be read: an app in the trash is not found.
pub fn read_app(app: App, trash_ids: &Vec<String>) -> (r: Option<App>)
    ensures
        r == if has_id(trash_ids@, app.id@) {
            None::<App>
        } else {
            Some(app)
        },
{
    if contains_id(trash_ids, &app.id) {
        None
    } else {
        Some(app)
    }
}

/// What is to be done when the given apps were put into the trash, taken
/// back or deleted. Apps that went into the trash or came back change what
/// their workspaces show: each app's workspace is told, in the order of the
/// event. Deleted apps are deleted, and each of their workspaces is told
/// once.
pub fn handle_trash_event(kind: TrashEventKind, apps: &Vec<App>) -> (plan: TrashPlan)
    ensures
        ids_view(plan.delete@) == if kind == TrashEventKind::Delete {
            app_ids(apps@)
        } else {
            Seq::<Seq<char>>::empty()
        },
        ids_view(plan.notify@) == if kind == TrashEventKind::Delete {
            distinct(workspace_ids(apps@))
        } else {
            workspace_ids(apps@)
        },
{
    let mut delete: Vec<String> = Vec::new();
    let mut notify: Vec<String> = Vec::new();
    let is_delete = match kind {
        TrashEventKind::Delete => true,
        _ => false,
    };
    let mut i: usize = 0;
    proof {
        assert(apps@.take(0) =~= Seq::<App>::empty());
        assert(ids_view(delete@) =~= Seq::<Seq<char>>::empty());
        assert(ids_view(notify@) =~= Seq::<Seq<char>>::empty());
        assert(workspace_ids(apps@.take(0)) =~= Seq::<Seq<char>>::empty());
        assert(app_ids(apps@.take(0)) =~= Seq::<Seq<char>>::empty());
    }
    while i < apps.len()
        invariant
            i <= apps@.len(),
            is_delete == (kind == TrashEventKind::Delete),
            ids_view(delete@) == if is_delete {
                app_ids(apps@.take(i as int))
            } else {
                Seq::<Seq<char>>::empty()
            },
            ids_view(notify@) == if is_delete {
                distinct(workspace_ids(apps@.take(i as int)))
            } else {
                workspace_ids(apps@.take(i as int))
            },
        decreases apps@.len() - i,
    {
        let app = &apps[i];
        let ghost old_delete = ids_view(delete@);
        let ghost old_notify = ids_view(notify@);
        proof {
            let upto = apps@.take(i + 1);
            assert(upto.drop_last() =~= apps@.take(i as int));
            assert(upto.last() == apps@[i as int]);
            assert(workspace_ids(upto).drop_last() =~= workspace_ids(apps@.take(i as int)));
            assert(workspace_ids(upto).last() == app.workspace_id@);
            assert(workspace_ids(upto) =~= workspace_ids(apps@.take(i as int)).push(
                app.workspace_id@,
            ));
            assert(app_ids(upto) =~= app_ids(apps@.take(i as int)).push(app.id@));
            lemma_has_id(notify@, app.workspace_id@);
        }
        if is_delete {
            delete.push(app.id.clone());
            assert(ids_view(delete@) =~= old_delete.push(app.id@));
            if !contains_id(&notify, &app.workspace_id) {
                notify.push(app.workspace_id.clone());
                assert(ids_view(notify@) =~= old_notify.push(app.workspace_id@));
            }
        } else {
            notify.push(app.workspace_id.clone());
            assert(ids_view(notify@) =~= old_notify.push(app.workspace_id@));
        }
        i = i + 1;
    }
    proof {
        assert(apps@.take(i as int) =~= apps@);
    }
    TrashPlan { delete, notify }
}

} // verus!
