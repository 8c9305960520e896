use folder_sync::delta::Delta;
use folder_sync::entities::{
    contains_id, notify_apps_changed, read_local_workspace_apps, text_is_blank, App,
    CreateWorkspaceParams, CreateWorkspaceRequest, RepeatedApp, RepeatedView, RepeatedWorkspace,
    Workspace, WorkspaceError,
};
use folder_sync::errors::ErrorCode;
use folder_sync::op::{Operation, PlainTextAttributes};
use folder_sync::retry::{backoff_delay, RetryDecision, RetryQueue};
use folder_sync::server_folder::ServerFolder;
use folder_sync::server_sync::{is_required, save_plan, SaveStep};
use folder_sync::trash::{handle_trash_event, read_app, TrashEventKind};
use folder_sync::entities::AppView;

fn app(id: &str, workspace_id: &str) -> App {
    App {
        id: id.to_string(),
        workspace_id: workspace_id.to_string(),
        name: format!("app {}", id),
        desc: String::new(),
        belongings: RepeatedView { items: Vec::new() },
        version: 0,
        modified_time: 1,
        create_time: 1,
    }
}

fn workspace(id: &str, apps: Vec<App>) -> Workspace {
    Workspace {
        id: id.to_string(),
        name: "ws".to_string(),
        desc: "d".to_string(),
        apps: RepeatedApp { items: apps },
        modified_time: 3,
        create_time: 2,
    }
}

#[test]
fn apps_in_the_trash_are_left_out() {
    let apps = vec![app("a", "w"), app("b", "w"), app("c", "w"), app("d", "w")];
    let trash = vec!["b".to_string(), "d".to_string(), "zz".to_string()];
    let kept = read_local_workspace_apps(apps, &trash);
    assert_eq!(kept.items, vec![app("a", "w"), app("c", "w")]);
    let all = read_local_workspace_apps(vec![app("a", "w")], &Vec::new());
    assert_eq!(all.into_inner(), vec![app("a", "w")]);
    let none = read_local_workspace_apps(vec![app("a", "w")], &vec!["a".to_string()]);
    assert!(none.items.is_empty());
}

#[test]
fn contains_id_compares_whole_ids() {
    let ids = vec!["ab".to_string(), "c".to_string()];
    assert!(contains_id(&ids, &"c".to_string()));
    assert!(!contains_id(&ids, &"a".to_string()));
    assert!(!contains_id(&Vec::new(), &"a".to_string()));
}

#[test]
fn notice_names_the_workspace_and_carries_its_apps() {
    let notice = notify_apps_changed("w1", vec![app("a", "w1"), app("b", "w1")], &vec!["a".to_string()]);
    assert_eq!(notice.workspace_id, "w1");
    assert_eq!(notice.apps.items, vec![app("b", "w1")]);
}

#[test]
fn take_apps_leaves_the_workspace_without_apps() {
    let mut w = workspace("w", vec![app("a", "w"), app("b", "w")]);
    let taken = w.take_apps();
    assert_eq!(taken.items, vec![app("a", "w"), app("b", "w")]);
    assert!(w.apps.items.is_empty());
    assert_eq!(w, workspace("w", Vec::new()));
    assert!(w.take_apps().items.is_empty());
}

#[test]
fn repeated_workspace_gives_its_items() {
    let list = RepeatedWorkspace { items: vec![workspace("w", Vec::new())] };
    assert_eq!(list.into_inner(), vec![workspace("w", Vec::new())]);
}

#[test]
fn create_workspace_request_is_checked() {
    let ok = CreateWorkspaceRequest { name: "Home".to_string(), desc: "mine".to_string() };
    assert_eq!(
        ok.try_into(),
        Ok(CreateWorkspaceParams { name: "Home".to_string(), desc: "mine".to_string() })
    );
    let blank = CreateWorkspaceRequest { name: " \t\n".to_string(), desc: String::new() };
    assert_eq!(blank.try_into(), Err(WorkspaceError::WorkspaceNameInvalid));
    let empty = CreateWorkspaceRequest { name: String::new(), desc: "x".repeat(2000) };
    assert_eq!(empty.try_into(), Err(WorkspaceError::WorkspaceNameInvalid));
    let long = CreateWorkspaceRequest { name: "n".to_string(), desc: "x".repeat(1025) };
    assert_eq!(long.try_into(), Err(WorkspaceError::WorkspaceDescTooLong));
    let edge = CreateWorkspaceRequest { name: "n".to_string(), desc: "é".repeat(1024) };
    assert!(edge.try_into().is_ok());
}

#[test]
fn blank_means_white_space_only() {
    assert!(text_is_blank(""));
    assert!(text_is_blank(" \r\n\t"));
    assert!(!text_is_blank(" a "));
}

#[test]
fn server_folder_composes_onto_its_delta() {
    let mut delta = Delta::new();
    delta.insert("abc", PlainTextAttributes {});
    let mut folder = ServerFolder::from_delta("f1", delta);
    assert_eq!(folder.id(), "f1");
    let mut edit = Delta::new();
    edit.retain(1, PlainTextAttributes {});
    edit.delete(1);
    edit.insert("X", PlainTextAttributes {});
    edit.retain(1, PlainTextAttributes {});
    assert_eq!(folder.compose(&edit), Ok(()));
    assert_eq!(folder.delta().ops(), &vec![Operation::insert("aXc")]);
    let mut misfit = Delta::new();
    misfit.retain(5, PlainTextAttributes {});
    assert_eq!(folder.compose(&misfit), Err(ErrorCode::MalformedDelta));
    assert_eq!(folder.delta().ops(), &vec![Operation::insert("aXc")]);
}

#[test]
fn server_folder_transforms_with_priority_and_takes_a_new_delta() {
    let mut held = Delta::new();
    held.retain(2, PlainTextAttributes {});
    held.insert("S", PlainTextAttributes {});
    let mut folder = ServerFolder::from_delta("f1", Delta::new());
    folder.set_delta(held);
    let mut other = Delta::new();
    other.retain(2, PlainTextAttributes {});
    other.insert("C", PlainTextAttributes {});
    let (server, client) = folder.transform(&other).unwrap();
    assert_eq!(server.ops(), &vec![Operation::retain(2), Operation::insert("S"), Operation::retain(1)]);
    assert_eq!(client.ops(), &vec![Operation::retain(3), Operation::insert("C")]);
    let mut short = Delta::new();
    short.retain(1, PlainTextAttributes {});
    assert_eq!(folder.transform(&short).err(), Some(ErrorCode::MalformedDelta));
}

#[test]
fn server_folder_gives_its_delta_as_json() {
    let mut delta = Delta::new();
    delta.insert("{\"workspaces\":[]}", PlainTextAttributes {});
    let folder = ServerFolder::from_delta("f1", delta);
    assert_eq!(folder.to_json(), r#"[{"insert":"{\"workspaces\":[]}"}]"#);
}

fn view(id: &str, app_id: &str) -> AppView {
    AppView {
        id: id.to_string(),
        belong_to_id: app_id.to_string(),
        name: "v".to_string(),
        desc: String::new(),
        version: 0,
        modified_time: 0,
        create_time: 0,
    }
}

#[test]
fn an_app_in_the_trash_is_not_found() {
    let trash = vec!["b".to_string()];
    assert_eq!(read_app(app("a", "w"), &trash), Some(app("a", "w")));
    assert_eq!(read_app(app("b", "w"), &trash), None);
}

#[test]
fn trash_events_tell_the_workspaces() {
    let apps = vec![app("a", "w1"), app("b", "w2"), app("c", "w1")];
    let moved = handle_trash_event(TrashEventKind::NewTrash, &apps);
    assert!(moved.delete.is_empty());
    assert_eq!(moved.notify, vec!["w1", "w2", "w1"]);
    let back = handle_trash_event(TrashEventKind::Putback, &apps);
    assert!(back.delete.is_empty());
    assert_eq!(back.notify, vec!["w1", "w2", "w1"]);
    let gone = handle_trash_event(TrashEventKind::Delete, &apps);
    assert_eq!(gone.delete, vec!["a", "b", "c"]);
    assert_eq!(gone.notify, vec!["w1", "w2"]);
    let none = handle_trash_event(TrashEventKind::Delete, &Vec::new());
    assert!(none.delete.is_empty() && none.notify.is_empty());
}

#[test]
fn save_plan_writes_workspaces_then_apps_then_views() {
    let mut a0 = app("a0", "w0");
    a0.belongings.items = vec![view("v0", "a0"), view("v1", "a0")];
    let a1 = app("a1", "w0");
    let mut b0 = app("b0", "w1");
    b0.belongings.items = vec![view("v2", "b0")];
    let list = vec![workspace("w0", vec![a0, a1]), workspace("w1", vec![b0]), workspace("w2", Vec::new())];
    assert_eq!(
        save_plan(&list),
        vec![
            SaveStep::Workspace(0),
            SaveStep::App(0, 0),
            SaveStep::View(0, 0, 0),
            SaveStep::View(0, 0, 1),
            SaveStep::App(0, 1),
            SaveStep::Workspace(1),
            SaveStep::App(1, 0),
            SaveStep::View(1, 0, 0),
            SaveStep::Workspace(2),
        ]
    );
    assert!(save_plan(&Vec::new()).is_empty());
    assert!(is_required(SaveStep::Workspace(0)));
    assert!(!is_required(SaveStep::App(0, 0)));
    assert!(!is_required(SaveStep::View(0, 0, 0)));
}

#[test]
fn backoff_doubles_up_to_its_limit() {
    assert_eq!(backoff_delay(0), 200);
    assert_eq!(backoff_delay(1), 200);
    assert_eq!(backoff_delay(2), 400);
    assert_eq!(backoff_delay(3), 800);
    assert_eq!(backoff_delay(4), 1600);
    assert_eq!(backoff_delay(5), 3200);
    assert_eq!(backoff_delay(6), 5000);
    assert_eq!(backoff_delay(60), 5000);
}

#[test]
fn retry_queue_gives_up_after_its_attempts() {
    let mut queue = RetryQueue::new();
    let first = queue.push();
    let second = queue.push();
    assert_eq!((first, second), (0, 1));
    assert_eq!(queue.len(), 2);
    assert_eq!(queue.on_failure(first), RetryDecision::RetryAfter(200));
    assert_eq!(queue.on_failure(first), RetryDecision::RetryAfter(400));
    assert_eq!(queue.on_failure(second), RetryDecision::RetryAfter(200));
    assert_eq!(queue.on_failure(first), RetryDecision::RetryAfter(800));
    assert_eq!(queue.on_failure(first), RetryDecision::RetryAfter(1600));
    assert_eq!(queue.on_failure(first), RetryDecision::GiveUp);
    assert_eq!(queue.on_failure(first), RetryDecision::Unknown);
    assert_eq!(queue.len(), 1);
    assert!(queue.on_success(second));
    assert!(!queue.on_success(second));
    assert_eq!(queue.len(), 0);
    assert_eq!(queue.push(), 2);
}
