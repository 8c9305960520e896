//! The folder's entities: workspaces, the apps in them and their views.

use vstd::prelude::*;

verus! {

/// A view of an app.
#[derive(Clone, Debug, Default, PartialEq, Eq)]
pub struct AppView {
    pub id: String,
    pub belong_to_id: String,
    pub name: String,
    pub desc: String,
    pub version: i64,
    pub modified_time: i64,
    pub create_time: i64,
}

/// A list of views.
#[derive(Clone, Debug, Default, PartialEq, Eq)]
pub struct RepeatedView {
    pub items: Vec<AppView>,
}

/// An app of a workspace.
#[derive(Clone, Debug, Default, PartialEq, Eq)]
pub struct App {
    pub id: String,
    pub workspace_id: String,
    pub name: String,
    pub desc: String,
    pub belongings: RepeatedView,
    pub version: i64,
    pub modified_time: i64,
    pub create_time: i64,
}

/// A list of apps.
#[derive(Clone, Debug, Default, PartialEq, Eq)]
pub struct RepeatedApp {
    pub items: Vec<App>,
}

impl RepeatedApp {
    /// The apps themselves.
    pub fn into_inner(self) -> (items: Vec<App>)
        ensures
            items == self.items,
    {
        self.items
    }
}

/// Why a request to create a workspace is refused.
#[derive(Clone, Copy, Debug, PartialEq, Eq, Structural)]
pub enum WorkspaceError {
    /// The name is empty or holds white space only.
    WorkspaceNameInvalid,
    /// The description has more than `MAX_DESC_LEN` characters.
    WorkspaceDescTooLong,
}

/// The most characters a workspace's description may have.
pub const MAX_DESC_LEN: usize = 1024;

/// A request to create a workspace, as it comes in.
#[derive(Default)]
pub struct CreateWorkspaceRequest {
    pub name: String,
    pub desc: String,
}

/// A request to create a workspace whose fields were checked.
#[derive(Clone, Debug, Default, PartialEq, Eq)]
pub struct CreateWorkspaceParams {
    pub name: String,
    pub desc: String,
}

/// White space in a name: space, tab, line feed, carriage return.
pub open spec fn is_blank_char(c: char) -> bool {
    c == ' ' || c == '\t' || c == '\n' || c == '\r'
}

/// Whether a text holds white space only.
pub open spec fn is_blank(s: Seq<char>) -> bool {
    forall|i: int| 0 <= i < s.len() ==> is_blank_char(#[trigger] s[i])
}

/// Whether `s` holds white space only.
pub fn text_is_blank(s: &str) -> (b: bool)
    ensures
        b == is_blank(s@),
{
    let n = s.unicode_len();
    let mut i: usize = 0;
    while i < n
        invariant
            i <= n,
            n == s@.len(),
            forall|j: int| 0 <= j < i ==> is_blank_char(#[trigger] s@[j]),
        decreases n - i,
    {
        let c = s.get_char(i);
        if !(c == ' ' || c == '\t' || c == '\n' || c == '\r') {
            return false;
        }
        i = i + 1;
    }
    true
}

impl CreateWorkspaceRequest {
    /// Checks the request: the name must hold something other than white
    /// space, and the description at most `MAX_DESC_LEN` characters. The name
    /// is looked at first.
    pub fn try_into(self) -> (r: Result<CreateWorkspaceParams, WorkspaceError>)
        ensures
            r == if is_blank(self.name@) {
                Err::<CreateWorkspaceParams, WorkspaceError>(WorkspaceError::WorkspaceNameInvalid)
            } else if self.desc@.len() > MAX_DESC_LEN {
                Err(WorkspaceError::WorkspaceDescTooLong)
            } else {
                Ok(CreateWorkspaceParams { name: self.name, desc: self.desc })
            },
    {
        if text_is_blank(self.name.as_str()) {
            return Err(WorkspaceError::WorkspaceNameInvalid);
        }
        if self.desc.as_str().unicode_len() > MAX_DESC_LEN {
            return Err(WorkspaceError::WorkspaceDescTooLong);
        }
        Ok(CreateWorkspaceParams { name: self.name, desc: self.desc })
    }
}

/// A workspace and the apps in it.
#[derive(Clone, Debug, Default, PartialEq, Eq)]
pub struct Workspace {
    pub id: String,
    pub name: String,
    pub desc: String,
    pub apps: RepeatedApp,
    pub modified_time: i64,
    pub create_time: i64,
}

impl Workspace {
    /// Takes the apps out of the workspace and leaves it with none.
    pub fn take_apps(&mut self) -> (apps: RepeatedApp)
        ensures
            apps == old(self).apps,
            final(self).apps.items@.len() == 0,
            final(self).id == old(self).id,
            final(self).name == old(self).name,
            final(self).desc == old(self).desc,
            final(self).modified_time == old(self).modified_time,
            final(self).create_time == old(self).create_time,
    {
        let mut apps = RepeatedApp { items: Vec::new() };
        core::mem::swap(&mut self.apps, &mut apps);
        apps
    }
}

/// A list of workspaces.
#[derive(Debug, Default, PartialEq, Eq)]
pub struct RepeatedWorkspace {
    pub items: Vec<Workspace>,
}

impl RepeatedWorkspace {
    /// The workspaces themselves.
    pub fn into_inner(self) -> (items: Vec<Workspace>)
        ensures
            items == self.items,
    {
        self.items
    }
}

/// Whether `id` is among `ids`.
pub open spec fn has_id(ids: Seq<String>, id: Seq<char>) -> bool {
    exists|i: int| 0 <= i < ids.len() && (#[trigger] ids[i])@ == id
}

/// Whether `id` is among `ids`.
pub fn contains_id(ids: &Vec<String>, id: &String) -> (b: bool)
    ensures
        b == has_id(ids@, id@),
{
    let mut i: usize = 0;
    while i < ids.len()
        invariant
            i <= ids@.len(),
            forall|j: int| 0 <= j < i ==> (#[trigger] ids@[j])@ != id@,
        decreases ids@.len() - i,
    {
        if ids[i] == *id {
            return true;
        }
        i = i + 1;
    }
    false
}

/// The apps of a workspace that are not in the trash, in their order.
pub open spec fn apps_not_in_trash(apps: Seq<App>, trash_ids: Seq<String>) -> Seq<App> {
    apps.filter(|app: App| !has_id(trash_ids, app.id@))
}

/// The apps kept of a list are those kept of all but the last, and the last
/// where it is kept.
pub proof fn lemma_apps_not_in_trash_last(apps: Seq<App>, trash_ids: Seq<String>)
    requires
        apps.len() > 0,
    ensures
        apps_not_in_trash(apps, trash_ids) == if has_id(trash_ids, apps.last().id@) {
            apps_not_in_trash(apps.drop_last(), trash_ids)
        } else {
            apps_not_in_trash(apps.drop_last(), trash_ids).push(apps.last())
        },
{
    reveal(Seq::filter);
}

/// The apps to show for a workspace: of the apps read for it, those whose
/// id is not among the ids in the trash, in the order in which they were read.
pub fn read_local_workspace_apps(apps: Vec<App>, trash_ids: &Vec<String>) -> (r: RepeatedApp)
    ensures
        r.items@ == apps_not_in_trash(apps@, trash_ids@),
{
    let ghost all = apps@;
    let mut kept: Vec<App> = Vec::new();
    proof {
        assert(all.take(0) =~= Seq::<App>::empty());
        reveal(Seq::filter);
    }
    for app in it: apps
        invariant
            it.seq() == all,
            kept@ == apps_not_in_trash(all.take(it.index()), trash_ids@),
    {
        proof {
            let upto = all.take(it.index() + 1);
            assert(upto.drop_last() =~= all.take(it.index()));
            assert(upto.last() == app);
            lemma_apps_not_in_trash_last(upto, trash_ids@);
        }
        if !contains_id(trash_ids, &app.id) {
            kept.push(app);
        }
    }
    proof {
        assert(all.take(all.len() as int) =~= all);
    }
    RepeatedApp { items: kept }
}

/// What is sent out when the apps of a workspace have changed.
#[derive(Debug, PartialEq, Eq)]
pub struct AppsChanged {
    pub workspace_id: String,
    pub apps: RepeatedApp,
}

/// The notice that the apps of a workspace have changed: it names the
/// workspace and carries its apps that are not in the trash.
pub fn notify_apps_changed(workspace_id: &str, apps: Vec<App>, trash_ids: &Vec<String>) -> (r:
    AppsChanged)
    ensures
        r.workspace_id@ == workspace_id@,
        r.apps.items@ == apps_not_in_trash(apps@, trash_ids@),
{
    let repeated_app = read_local_workspace_apps(apps, trash_ids);
    AppsChanged { workspace_id: workspace_id.to_owned(), apps: repeated_app }
}

} // verus!
