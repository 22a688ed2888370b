use image_sync::engine::{Action, Engine, Failure, Operation, Reply};
use image_sync::error::ErrorKind;
use image_sync::plan::{jobs, push_commands, Activity, Command, Job};
use image_sync::registry::{TagDescriptor};
use image_sync::store::ProfileStore;

fn tag(name: &str, digest: Option<&str>) -> TagDescriptor {
    TagDescriptor { name: name.to_string(), digest: digest.map(|d| d.to_string()), platforms: Vec::new() }
}

fn texts(items: &[&str]) -> Vec<String> {
    items.iter().map(|s| s.to_string()).collect()
}

fn pull(r: &str) -> Action {
    Action::Run(Command::Pull(r.to_string()))
}

fn retag(source: &str, target: &str) -> Action {
    Action::Run(Command::Tag { source: source.to_string(), target: target.to_string() })
}

fn push(r: &str) -> Action {
    Action::Run(Command::Push(r.to_string()))
}

fn remove(r: &str) -> Action {
    Action::Run(Command::RemoveImage(r.to_string()))
}

fn fetch(library: Option<&str>, repo: &str) -> Action {
    Action::Fetch { library: library.map(|l| l.to_string()), repo: repo.to_string() }
}

fn ok() -> Reply {
    Reply::Exited(Some(0))
}

fn nginx_store() -> ProfileStore {
    let mut store = ProfileStore::new();
    store.merge_tags(None, "nginx".to_string(), &texts(&["1.25", "latest"]));
    store
}

fn two_image_store() -> ProfileStore {
    let mut store = ProfileStore::new();
    store.merge_tags(None, "nginx".to_string(), &texts(&["1.25", "latest"]));
    store.merge_tags(Some("bitnami".to_string()), "redis".to_string(), &texts(&["7"]));
    store
}

fn drive(engine: &mut Engine, mut answer: impl FnMut(&Action) -> Reply) -> Vec<Action> {
    let mut actions = Vec::new();
    let mut reply = Reply::Begin;
    loop {
        let action = engine.step(reply);
        if action == Action::Finished {
            actions.push(action);
            return actions;
        }
        reply = answer(&action);
        actions.push(action);
        assert!(actions.len() < 1000, "the engine does not finish");
    }
}

fn count_fetches(actions: &[Action], library: Option<&str>, repo: &str) -> usize {
    actions.iter().filter(|a| **a == fetch(library, repo)).count()
}

#[test]
fn jobs_follow_the_catalog() {
    let store = two_image_store();
    assert_eq!(
        jobs(&store),
        vec![
            Job { library: Some("bitnami".to_string()), repo: "redis".to_string(), tag: "7".to_string() },
            Job { library: None, repo: "nginx".to_string(), tag: "1.25".to_string() },
            Job { library: None, repo: "nginx".to_string(), tag: "latest".to_string() },
        ]
    );
    assert!(jobs(&ProfileStore::new()).is_empty());
}

#[test]
fn job_names_its_image_and_source() {
    let job = Job { library: Some("bitnami".to_string()), repo: "redis".to_string(), tag: "7".to_string() };
    assert_eq!(job.image(), "bitnami/redis");
    assert_eq!(job.source(), "bitnami/redis:7");
}

#[test]
fn command_knows_its_activity_and_subject() {
    let c = Command::Tag { source: "nginx:1".to_string(), target: "r/nginx:1".to_string() };
    assert_eq!(c.activity(), Activity::Tag);
    assert_eq!(c.subject(), "r/nginx:1");
    assert_eq!(Command::Pull("a:b".to_string()).activity(), Activity::Pull);
    assert_eq!(Command::Pull("a:b".to_string()).subject(), "a:b");
    assert_eq!(Command::Push("a:b".to_string()).activity(), Activity::Push);
    assert_eq!(Command::RemoveImage("a:b".to_string()).activity(), Activity::Remove);
}

#[test]
fn push_commands_retag_push_and_remove_each_target() {
    let job = Job { library: None, repo: "nginx".to_string(), tag: "1.25".to_string() };
    let listing = vec![tag("latest", Some("D")), tag("1.25", Some("D")), tag("old", Some("E"))];
    assert_eq!(
        push_commands("dest.example.com", &job, &listing),
        vec![
            Command::Tag { source: "nginx:1.25".to_string(), target: "dest.example.com/nginx:1.25".to_string() },
            Command::Push("dest.example.com/nginx:1.25".to_string()),
            Command::RemoveImage("dest.example.com/nginx:1.25".to_string()),
            Command::Tag { source: "nginx:1.25".to_string(), target: "dest.example.com/nginx:latest".to_string() },
            Command::Push("dest.example.com/nginx:latest".to_string()),
            Command::RemoveImage("dest.example.com/nginx:latest".to_string()),
        ]
    );
}

#[test]
fn pull_pulls_every_tag_in_order() {
    let store = two_image_store();
    let mut engine = Engine::new(&store, Operation::Pull);
    let actions = drive(&mut engine, |_| ok());
    assert_eq!(
        actions,
        vec![pull("bitnami/redis:7"), pull("nginx:1.25"), pull("nginx:latest"), Action::Finished]
    );
    assert!(engine.is_finished());
    assert_eq!(engine.fatal(), &None);
    assert!(engine.failures().is_empty());
}

#[test]
fn failed_pull_is_fatal() {
    let store = two_image_store();
    let mut engine = Engine::new(&store, Operation::Pull);
    let actions = drive(&mut engine, |a| {
        if *a == pull("nginx:1.25") {
            Reply::Exited(Some(1))
        } else {
            ok()
        }
    });
    assert_eq!(actions, vec![pull("bitnami/redis:7"), pull("nginx:1.25"), Action::Finished]);
    assert_eq!(
        engine.fatal(),
        &Some(Failure {
            activity: Activity::Pull,
            context: "nginx:1.25".to_string(),
            kind: ErrorKind::RuntimeInvocationFailed,
        })
    );
    assert!(engine.is_finished());
    assert_eq!(engine.step(ok()), Action::Finished);
}

#[test]
fn pull_that_cannot_launch_is_fatal() {
    let store = nginx_store();
    let mut engine = Engine::new(&store, Operation::Pull);
    let actions = drive(&mut engine, |_| Reply::NotLaunched);
    assert_eq!(actions, vec![pull("nginx:1.25"), Action::Finished]);
    assert!(engine.fatal().is_some());
}

#[test]
fn pull_killed_by_signal_is_fatal() {
    let store = nginx_store();
    let mut engine = Engine::new(&store, Operation::Pull);
    let actions = drive(&mut engine, |_| Reply::Exited(None));
    assert_eq!(actions, vec![pull("nginx:1.25"), Action::Finished]);
    assert!(engine.fatal().is_some());
}

#[test]
fn end_to_end_push_of_two_aliased_tags() {
    let store = nginx_store();
    let mut engine = Engine::new(
        &store,
        Operation::Push { registry: "dest.example.com".to_string(), clean: false },
    );
    let listing = vec![tag("1.25", Some("sha256:abc")), tag("latest", Some("sha256:abc"))];
    let actions = drive(&mut engine, |a| match a {
        Action::Fetch { .. } => Reply::Listing(Ok(listing.clone())),
        _ => ok(),
    });
    assert_eq!(
        actions,
        vec![
            fetch(None, "nginx"),
            retag("nginx:1.25", "dest.example.com/nginx:1.25"),
            push("dest.example.com/nginx:1.25"),
            remove("dest.example.com/nginx:1.25"),
            retag("nginx:1.25", "dest.example.com/nginx:latest"),
            push("dest.example.com/nginx:latest"),
            remove("dest.example.com/nginx:latest"),
            retag("nginx:latest", "dest.example.com/nginx:latest"),
            push("dest.example.com/nginx:latest"),
            remove("dest.example.com/nginx:latest"),
            retag("nginx:latest", "dest.example.com/nginx:1.25"),
            push("dest.example.com/nginx:1.25"),
            remove("dest.example.com/nginx:1.25"),
            Action::Finished,
        ]
    );
    let mut pushed: Vec<String> = actions
        .iter()
        .filter_map(|a| match a {
            Action::Run(Command::Push(target)) => Some(target.clone()),
            _ => None,
        })
        .collect();
    assert_eq!(pushed.len(), 4);
    pushed.sort();
    pushed.dedup();
    assert_eq!(pushed, texts(&["dest.example.com/nginx:1.25", "dest.example.com/nginx:latest"]));
    assert!(engine.failures().is_empty());
    assert_eq!(engine.fatal(), &None);
}

#[test]
fn listing_is_fetched_once_for_many_tags() {
    let mut store = ProfileStore::new();
    store.merge_tags(None, "nginx".to_string(), &texts(&["a", "b", "c", "d", "e"]));
    let mut engine =
        Engine::new(&store, Operation::Push { registry: "r".to_string(), clean: false });
    let actions = drive(&mut engine, |a| match a {
        Action::Fetch { .. } => Reply::Listing(Ok(Vec::new())),
        _ => ok(),
    });
    assert_eq!(count_fetches(&actions, None, "nginx"), 1);
    assert_eq!(actions.len(), 1 + 5 * 3 + 1);
    assert_eq!(actions[0], fetch(None, "nginx"));
}

#[test]
fn listing_is_fetched_once_for_each_image() {
    let store = two_image_store();
    let mut engine =
        Engine::new(&store, Operation::Push { registry: "r".to_string(), clean: false });
    let actions = drive(&mut engine, |a| match a {
        Action::Fetch { .. } => Reply::Listing(Ok(Vec::new())),
        _ => ok(),
    });
    assert_eq!(count_fetches(&actions, None, "nginx"), 1);
    assert_eq!(count_fetches(&actions, Some("bitnami"), "redis"), 1);
    assert_eq!(
        actions,
        vec![
            fetch(Some("bitnami"), "redis"),
            retag("bitnami/redis:7", "r/bitnami/redis:7"),
            push("r/bitnami/redis:7"),
            remove("r/bitnami/redis:7"),
            fetch(None, "nginx"),
            retag("nginx:1.25", "r/nginx:1.25"),
            push("r/nginx:1.25"),
            remove("r/nginx:1.25"),
            retag("nginx:latest", "r/nginx:latest"),
            push("r/nginx:latest"),
            remove("r/nginx:latest"),
            Action::Finished,
        ]
    );
}

#[test]
fn engine_cache_holds_what_was_fetched() {
    let store = nginx_store();
    let mut engine =
        Engine::new(&store, Operation::Push { registry: "r".to_string(), clean: false });
    assert!(engine.cache().get("nginx").is_none());
    let listing = vec![tag("1.25", None)];
    drive(&mut engine, |a| match a {
        Action::Fetch { .. } => Reply::Listing(Ok(listing.clone())),
        _ => ok(),
    });
    assert_eq!(engine.cache().get("nginx"), Some(&Ok(listing.clone())));
}

#[test]
fn push_failures_do_not_stop_the_push() {
    let store = nginx_store();
    let mut engine =
        Engine::new(&store, Operation::Push { registry: "r".to_string(), clean: false });
    let actions = drive(&mut engine, |a| match a {
        Action::Fetch { .. } => Reply::Listing(Ok(Vec::new())),
        _ => Reply::Exited(Some(125)),
    });
    assert_eq!(
        actions,
        vec![
            fetch(None, "nginx"),
            retag("nginx:1.25", "r/nginx:1.25"),
            push("r/nginx:1.25"),
            remove("r/nginx:1.25"),
            retag("nginx:latest", "r/nginx:latest"),
            push("r/nginx:latest"),
            remove("r/nginx:latest"),
            Action::Finished,
        ]
    );
    assert_eq!(engine.fatal(), &None);
    let failure = |activity: Activity, context: &str| Failure {
        activity,
        context: context.to_string(),
        kind: ErrorKind::RuntimeInvocationFailed,
    };
    assert_eq!(
        engine.failures(),
        &vec![
            failure(Activity::Tag, "r/nginx:1.25"),
            failure(Activity::Push, "r/nginx:1.25"),
            failure(Activity::Remove, "r/nginx:1.25"),
            failure(Activity::Tag, "r/nginx:latest"),
            failure(Activity::Push, "r/nginx:latest"),
            failure(Activity::Remove, "r/nginx:latest"),
        ]
    );
}

#[test]
fn fetch_failure_skips_that_image_only() {
    let store = two_image_store();
    let mut engine =
        Engine::new(&store, Operation::Push { registry: "r".to_string(), clean: false });
    let actions = drive(&mut engine, |a| match a {
        Action::Fetch { repo, .. } if repo == "nginx" => {
            Reply::Listing(Err(ErrorKind::RegistryNotFound))
        },
        Action::Fetch { .. } => Reply::Listing(Ok(Vec::new())),
        _ => ok(),
    });
    assert_eq!(
        actions,
        vec![
            fetch(Some("bitnami"), "redis"),
            retag("bitnami/redis:7", "r/bitnami/redis:7"),
            push("r/bitnami/redis:7"),
            remove("r/bitnami/redis:7"),
            fetch(None, "nginx"),
            Action::Finished,
        ]
    );
    assert_eq!(count_fetches(&actions, None, "nginx"), 1);
    assert_eq!(engine.fatal(), &None);
    assert_eq!(
        engine.failures(),
        &vec![
            Failure {
                activity: Activity::Fetch,
                context: "nginx:1.25".to_string(),
                kind: ErrorKind::RegistryNotFound,
            },
            Failure {
                activity: Activity::Fetch,
                context: "nginx:latest".to_string(),
                kind: ErrorKind::RegistryNotFound,
            },
        ]
    );
}

#[test]
fn fetch_failure_on_first_image_does_not_stop_the_next() {
    let store = two_image_store();
    let mut engine =
        Engine::new(&store, Operation::Push { registry: "r".to_string(), clean: false });
    let actions = drive(&mut engine, |a| match a {
        Action::Fetch { repo, .. } if repo == "redis" => {
            Reply::Listing(Err(ErrorKind::RegistryUnreachable))
        },
        Action::Fetch { .. } => Reply::Listing(Ok(Vec::new())),
        _ => ok(),
    });
    assert_eq!(actions[0], fetch(Some("bitnami"), "redis"));
    assert_eq!(actions[1], fetch(None, "nginx"));
    assert_eq!(actions.len(), 2 + 6 + 1);
    assert_eq!(engine.failures().len(), 1);
    assert_eq!(engine.failures()[0].context, "bitnami/redis:7");
    assert_eq!(engine.failures()[0].kind, ErrorKind::RegistryUnreachable);
}

#[test]
fn unknown_tag_is_pushed_alone() {
    let store = nginx_store();
    let mut engine =
        Engine::new(&store, Operation::Push { registry: "r".to_string(), clean: false });
    let listing = vec![tag("other", Some("D")), tag("another", Some("D"))];
    let actions = drive(&mut engine, |a| match a {
        Action::Fetch { .. } => Reply::Listing(Ok(listing.clone())),
        _ => ok(),
    });
    assert_eq!(actions.len(), 1 + 6 + 1);
    assert!(engine.failures().is_empty());
}

#[test]
fn clean_after_push_removes_the_pulled_images() {
    let store = nginx_store();
    let mut engine =
        Engine::new(&store, Operation::Push { registry: "r".to_string(), clean: true });
    let actions = drive(&mut engine, |a| match a {
        Action::Fetch { .. } => Reply::Listing(Ok(Vec::new())),
        _ => ok(),
    });
    assert_eq!(
        actions,
        vec![
            fetch(None, "nginx"),
            retag("nginx:1.25", "r/nginx:1.25"),
            push("r/nginx:1.25"),
            remove("r/nginx:1.25"),
            retag("nginx:latest", "r/nginx:latest"),
            push("r/nginx:latest"),
            remove("r/nginx:latest"),
            remove("nginx:1.25"),
            remove("nginx:latest"),
            Action::Finished,
        ]
    );
}

#[test]
fn clean_goes_on_after_a_failure() {
    let store = two_image_store();
    let mut engine = Engine::new(&store, Operation::Clean);
    let actions = drive(&mut engine, |a| {
        if *a == remove("bitnami/redis:7") {
            Reply::Exited(Some(1))
        } else {
            ok()
        }
    });
    assert_eq!(
        actions,
        vec![remove("bitnami/redis:7"), remove("nginx:1.25"), remove("nginx:latest"), Action::Finished]
    );
    assert_eq!(engine.fatal(), &None);
    assert_eq!(
        engine.failures(),
        &vec![Failure {
            activity: Activity::Remove,
            context: "bitnami/redis:7".to_string(),
            kind: ErrorKind::RuntimeInvocationFailed,
        }]
    );
}

#[test]
fn sync_pulls_everything_before_it_pushes() {
    let store = two_image_store();
    let mut engine =
        Engine::new(&store, Operation::Sync { registry: "r".to_string(), clean: false });
    let actions = drive(&mut engine, |a| match a {
        Action::Fetch { .. } => Reply::Listing(Ok(Vec::new())),
        _ => ok(),
    });
    assert_eq!(
        actions,
        vec![
            pull("bitnami/redis:7"),
            pull("nginx:1.25"),
            pull("nginx:latest"),
            fetch(Some("bitnami"), "redis"),
            retag("bitnami/redis:7", "r/bitnami/redis:7"),
            push("r/bitnami/redis:7"),
            remove("r/bitnami/redis:7"),
            fetch(None, "nginx"),
            retag("nginx:1.25", "r/nginx:1.25"),
            push("r/nginx:1.25"),
            remove("r/nginx:1.25"),
            retag("nginx:latest", "r/nginx:latest"),
            push("r/nginx:latest"),
            remove("r/nginx:latest"),
            Action::Finished,
        ]
    );
}

#[test]
fn sync_stops_before_any_push_when_a_pull_fails() {
    let store = two_image_store();
    let mut engine =
        Engine::new(&store, Operation::Sync { registry: "r".to_string(), clean: true });
    let actions = drive(&mut engine, |a| {
        if *a == pull("bitnami/redis:7") {
            Reply::Exited(Some(1))
        } else {
            ok()
        }
    });
    assert_eq!(actions, vec![pull("bitnami/redis:7"), Action::Finished]);
    assert_eq!(
        engine.fatal(),
        &Some(Failure {
            activity: Activity::Pull,
            context: "bitnami/redis:7".to_string(),
            kind: ErrorKind::RuntimeInvocationFailed,
        })
    );
}

#[test]
fn sync_with_clean_ends_with_the_clean() {
    let store = nginx_store();
    let mut engine =
        Engine::new(&store, Operation::Sync { registry: "r".to_string(), clean: true });
    let actions = drive(&mut engine, |a| match a {
        Action::Fetch { .. } => Reply::Listing(Ok(Vec::new())),
        _ => ok(),
    });
    assert_eq!(actions.len(), 2 + 1 + 6 + 2 + 1);
    assert_eq!(actions[9], remove("nginx:1.25"));
    assert_eq!(actions[10], remove("nginx:latest"));
}

#[test]
fn empty_store_finishes_at_once() {
    let store = ProfileStore::new();
    for operation in [
        Operation::Pull,
        Operation::Clean,
        Operation::Push { registry: "r".to_string(), clean: true },
        Operation::Sync { registry: "r".to_string(), clean: true },
    ] {
        let mut engine = Engine::new(&store, operation);
        assert!(!engine.is_finished() || engine.step(Reply::Begin) == Action::Finished);
        assert_eq!(engine.step(Reply::Begin), Action::Finished);
        assert!(engine.is_finished());
    }
}

#[test]
fn profile_without_tags_asks_for_nothing() {
    let mut store = ProfileStore::new();
    store.merge_tags(None, "nginx".to_string(), &Vec::new());
    let mut engine =
        Engine::new(&store, Operation::Sync { registry: "r".to_string(), clean: true });
    assert_eq!(engine.step(Reply::Begin), Action::Finished);
}

#[test]
fn reply_that_is_no_listing_counts_as_unreachable() {
    let store = nginx_store();
    let mut engine =
        Engine::new(&store, Operation::Push { registry: "r".to_string(), clean: false });
    assert_eq!(engine.step(Reply::Begin), fetch(None, "nginx"));
    assert_eq!(engine.step(ok()), Action::Finished);
    assert_eq!(engine.failures().len(), 2);
    assert_eq!(engine.failures()[0].kind, ErrorKind::RegistryUnreachable);
    assert_eq!(engine.cache().get("nginx"), Some(&Err(ErrorKind::RegistryUnreachable)));
}

#[test]
fn null_digest_tag_is_pushed_alone_by_the_engine() {
    let store = nginx_store();
    let mut engine =
        Engine::new(&store, Operation::Push { registry: "r".to_string(), clean: false });
    let listing = vec![tag("1.25", None), tag("latest", None), tag("x", None)];
    let actions = drive(&mut engine, |a| match a {
        Action::Fetch { .. } => Reply::Listing(Ok(listing.clone())),
        _ => ok(),
    });
    assert_eq!(
        actions,
        vec![
            fetch(None, "nginx"),
            retag("nginx:1.25", "r/nginx:1.25"),
            push("r/nginx:1.25"),
            remove("r/nginx:1.25"),
            retag("nginx:latest", "r/nginx:latest"),
            push("r/nginx:latest"),
            remove("r/nginx:latest"),
            Action::Finished,
        ]
    );
}
