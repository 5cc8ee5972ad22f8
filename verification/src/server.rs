//! The server value (its port and route table) and the decisions of the
//! server and of its development auto-reload supervisor.
use vstd::prelude::*;

use crate::request::opt_view;
use crate::route::{self, RouteSpec, RouteTable};
use crate::text::{self, ascii_lower_seq, contains_seq, ends_with_seq, trim_end_char_spec,
    trim_spec, views};

verus! {

// ---------------------------------------------------------------------------
// The server
// ---------------------------------------------------------------------------

/// A server: the port it listens on and the routes it serves.
pub struct Unipotato<H> {
    port: u16,
    routes: RouteTable<H>,
}

impl<H> Unipotato<H> {
    /// The configured port.
    pub closed spec fn spec_port(&self) -> u16 {
        self.port
    }

    /// The route table.
    pub closed spec fn table(&self) -> RouteTable<H> {
        self.routes
    }

    /// The route table is well formed.
    pub open spec fn wf(&self) -> bool {
        self.table().wf()
    }

    /// A server on `port` with no routes.
    pub fn launch(port: u16) -> (s: Unipotato<H>)
        ensures
            s.wf(),
            s.spec_port() == port,
            s.table().specs() == Seq::<RouteSpec>::empty(),
            s.table().handlers() == Seq::<H>::empty(),
            s.table().base() == Seq::<char>::empty(),
    {
        Unipotato { port, routes: RouteTable::new() }
    }

    /// The configured port.
    pub fn port(&self) -> (r: u16)
        ensures
            r == self.spec_port(),
    {
        self.port
    }

    /// Registers routes under the base path `base` (see `route::mount`).
    pub fn mount<F: FnOnce(RouteTable<H>) -> RouteTable<H>>(self, base: &str, routes_fn: F) -> (s:
        Unipotato<H>)
        requires
            self.wf(),
            forall|t: RouteTable<H>| t.wf() ==> #[trigger] call_requires(routes_fn, (t,)),
            forall|t: RouteTable<H>, o: RouteTable<H>|
                t.wf() && #[trigger] call_ensures(routes_fn, (t,), o) ==> o.wf(),
        ensures
            s.wf(),
            s.spec_port() == self.spec_port(),
            s.table().base() == Seq::<char>::empty(),
            exists|mid: RouteTable<H>, out: RouteTable<H>|
                {
                    &&& mid.base() == trim_end_char_spec(base@, '/')
                    &&& mid.specs() == self.table().specs()
                    &&& mid.handlers() == self.table().handlers()
                    &&& mid.wf()
                    &&& call_ensures(routes_fn, (mid,), out)
                    &&& s.table().specs() == out.specs()
                    &&& s.table().handlers() == out.handlers()
                },
    {
        let Unipotato { port, routes } = self;
        let routes = route::mount(routes, base, routes_fn);
        Unipotato { port, routes }
    }

    /// The port and the route table, for serving.
    pub fn into_parts(self) -> (r: (u16, RouteTable<H>))
        ensures
            r.0 == self.spec_port(),
            r.1 == self.table(),
    {
        (self.port, self.routes)
    }
}

// ---------------------------------------------------------------------------
// Flags
// ---------------------------------------------------------------------------

/// A flag value that turns a feature on: `1`, `true`, `yes` or `on`, in any
/// ASCII case, around whitespace.
pub open spec fn truthy_spec(value: Seq<char>) -> bool {
    let t = ascii_lower_seq(trim_spec(value));
    t == "1"@ || t == "true"@ || t == "yes"@ || t == "on"@
}

// ---------------------------------------------------------------------------
// Connection errors
// ---------------------------------------------------------------------------

/// An error message that only says that the client went away.
pub open spec fn benign_spec(message: Seq<char>) -> bool {
    let m = ascii_lower_seq(message);
    ||| contains_seq(m, "incompletemessage"@)
    ||| contains_seq(m, "connection closed before message completed"@)
    ||| contains_seq(m, "connection reset by peer"@)
    ||| contains_seq(m, "broken pipe"@)
}

// ---------------------------------------------------------------------------
// Watched files
// ---------------------------------------------------------------------------

/// A changed path, given by its text, its extension and its file name.
pub struct WatchedPath {
    pub text: String,
    pub extension: Option<String>,
    pub file_name: Option<String>,
}

/// A path whose change triggers a rebuild: outside `target`, and a `.rs` or
/// `.toml` file or `Cargo.toml`.
pub open spec fn relevant_path_spec(
    text: Seq<char>,
    extension: Option<Seq<char>>,
    file_name: Option<Seq<char>>,
) -> bool {
    if contains_seq(text, "/target/"@) || ends_with_seq(text, "/target"@) {
        false
    } else if extension == Some("rs"@) || extension == Some("toml"@) {
        true
    } else {
        file_name == Some("Cargo.toml"@)
    }
}

fn opt_eq(s: &Option<String>, lit: &str) -> (r: bool)
    ensures
        r == (opt_view(*s) == Some(lit@)),
{
    match s {
        Some(x) => text::str_eq(x.as_str(), lit),
        None => false,
    }
}

/// The kind of a file-system event.
#[derive(Debug, Clone, Copy, PartialEq, Eq, Structural)]
pub enum ChangeKind {
    Create,
    Modify,
    Remove,
    Other,
}

/// A file-system event: its kind and the paths it concerns.
pub struct WatchEvent {
    pub kind: ChangeKind,
    pub paths: Vec<WatchedPath>,
}

/// An event that triggers a rebuild: some path is relevant, and files were
/// created, modified or removed.
pub open spec fn relevant_event_spec(event: WatchEvent) -> bool {
    &&& exists|i: int|
        0 <= i < event.paths@.len() && relevant_path_spec(
            #[trigger] event.paths@[i].text@,
            opt_view(event.paths@[i].extension),
            opt_view(event.paths@[i].file_name),
        )
    &&& event.kind != ChangeKind::Other
}

/// What the first message from the watcher was.
#[derive(Debug, Clone, Copy, PartialEq, Eq, Structural)]
pub enum FirstMessage {
    /// Nothing arrived in time.
    Timeout,
    /// The watcher is gone.
    Disconnected,
    /// The watcher reported an error.
    WatchError,
    /// An event arrived; whether it is relevant.
    Event { relevant: bool },
}

/// How to finish waiting for a change: whether to drain the burst of
/// messages that follows, and whether a relevant change was seen.
#[derive(Debug, Clone, Copy, PartialEq, Eq, Structural)]
pub struct ChangeWait {
    pub drain: bool,
    pub changed: bool,
}

/// Waiting for a change: after a timeout, a closed channel or an
/// irrelevant event the wait ends at once with no change; after a watcher
/// error the following burst is drained and no change is reported; after a
/// relevant event the burst is drained and a change is reported.
pub fn change_wait_outcome(first: FirstMessage) -> (r: ChangeWait)
    ensures
        r.drain == (first == FirstMessage::WatchError || first == FirstMessage::Event {
            relevant: true,
        }),
        r.changed == (first == FirstMessage::Event { relevant: true }),
{
    match first {
        FirstMessage::Timeout => ChangeWait { drain: false, changed: false },
        FirstMessage::Disconnected => ChangeWait { drain: false, changed: false },
        FirstMessage::WatchError => ChangeWait { drain: true, changed: false },
        FirstMessage::Event { relevant } => ChangeWait { drain: relevant, changed: relevant },
    }
}

/// How long the burst of messages after a change is drained, in
/// milliseconds.
pub const DEV_RELOAD_DEBOUNCE_MS: u64 = 400;

/// Whether draining the burst after a change goes on: only while less than
/// the debounce time has passed since draining began and the last wait for a
/// message received one (draining starts as if one had been received).
pub fn drain_continues(elapsed_ms: u64, last_received: bool) -> (r: bool)
    ensures
        r == (last_received && elapsed_ms < DEV_RELOAD_DEBOUNCE_MS),
{
    last_received && elapsed_ms < DEV_RELOAD_DEBOUNCE_MS
}

/// The project root of an executable: given, for the directories that
/// contain it from the nearest outwards, whether each holds a `Cargo.toml`,
/// the position of the nearest one that does, or `None` when none does.
pub fn nearest_manifest_dir(has_manifest: &[bool]) -> (r: Option<usize>)
    ensures
        match r {
            Some(i) => i < has_manifest@.len() && has_manifest@[i as int] && forall|j: int|
                0 <= j < i ==> !has_manifest@[j],
            None => forall|j: int| 0 <= j < has_manifest@.len() ==> !has_manifest@[j],
        },
{
    let mut i: usize = 0;
    while i < has_manifest.len()
        invariant
            i <= has_manifest@.len(),
            forall|j: int| 0 <= j < i ==> !has_manifest@[j],
        decreases has_manifest@.len() - i,
    {
        if has_manifest[i] {
            return Some(i);
        }
        i = i + 1;
    }
    None
}

// ---------------------------------------------------------------------------
// The build target and the watched paths
// ---------------------------------------------------------------------------

/// What `cargo build` builds.
#[derive(Debug, PartialEq, Eq)]
pub enum BuildTarget {
    Example(String),
    Bin(String),
    Generic,
}

/// The build target for an executable, given the components of its path
/// relative to `target/debug` (`None` when it is not under it): an example
/// under `examples/`, a binary directly inside, or anything else.
pub fn detect_build_target(relative_parts: Option<&[String]>) -> (r: BuildTarget)
    ensures
        match relative_parts {
            Some(parts) => if parts@.len() >= 2 && parts@[0]@ == "examples"@ {
                r matches BuildTarget::Example(name) && name@ == parts@[1]@
            } else if parts@.len() == 1 && parts@[0]@.len() > 0 {
                r matches BuildTarget::Bin(name) && name@ == parts@[0]@
            } else {
                r matches BuildTarget::Generic
            },
            None => r matches BuildTarget::Generic,
        },
{
    match relative_parts {
        Some(parts) => {
            if parts.len() >= 2 && text::str_eq(parts[0].as_str(), "examples") {
                return BuildTarget::Example(parts[1].clone());
            }
            if parts.len() == 1 && !parts[0].as_str().is_empty() {
                return BuildTarget::Bin(parts[0].clone());
            }
            BuildTarget::Generic
        },
        None => BuildTarget::Generic,
    }
}

/// The arguments of the `cargo` command that rebuilds a target.
pub fn build_args(target: &BuildTarget) -> (r: Vec<String>)
    ensures
        match target {
            BuildTarget::Example(name) => views(r@) == seq!["build"@, "--example"@, name@],
            BuildTarget::Bin(name) => views(r@) == seq!["build"@, "--bin"@, name@],
            BuildTarget::Generic => views(r@) == seq!["build"@],
        },
{
    let mut args: Vec<String> = Vec::new();
    args.push(text::to_owned_string("build"));
    match target {
        BuildTarget::Example(name) => {
            args.push(text::to_owned_string("--example"));
            args.push(name.clone());
        },
        BuildTarget::Bin(name) => {
            args.push(text::to_owned_string("--bin"));
            args.push(name.clone());
        },
        BuildTarget::Generic => {},
    }
    assert(views(args@) =~= match target {
        BuildTarget::Example(name) => seq!["build"@, "--example"@, name@],
        BuildTarget::Bin(name) => seq!["build"@, "--bin"@, name@],
        BuildTarget::Generic => seq!["build"@],
    });
    args
}

/// The paths, relative to the project root, that the supervisor watches:
/// `src`, `examples`, `tests` and `Cargo.toml`, those that exist, in that
/// order.
pub fn collect_watch_paths(exists: [bool; 4]) -> (r: Vec<String>)
    ensures
        views(r@) == watch_paths_spec(exists@),
{
    let mut paths: Vec<String> = Vec::new();
    if exists[0] {
        paths.push(text::to_owned_string("src"));
    }
    let ghost p0 = views(paths@);
    if exists[1] {
        paths.push(text::to_owned_string("examples"));
    }
    assert(views(paths@) =~= p0 + if exists@[1] { seq!["examples"@] } else { seq![] });
    let ghost p1 = views(paths@);
    if exists[2] {
        paths.push(text::to_owned_string("tests"));
    }
    assert(views(paths@) =~= p1 + if exists@[2] { seq!["tests"@] } else { seq![] });
    let ghost p2 = views(paths@);
    if exists[3] {
        paths.push(text::to_owned_string("Cargo.toml"));
    }
    assert(views(paths@) =~= p2 + if exists@[3] { seq!["Cargo.toml"@] } else { seq![] });
    assert(p0 =~= if exists@[0] { seq!["src"@] } else { seq![] });
    paths
}

/// The watched paths for the existence flags of `src`, `examples`, `tests`
/// and `Cargo.toml`.
pub open spec fn watch_paths_spec(exists: Seq<bool>) -> Seq<Seq<char>> {
    (if exists[0] { seq!["src"@] } else { seq![] }) + (if exists[1] { seq!["examples"@] } else {
        seq![]
    }) + (if exists[2] { seq!["tests"@] } else { seq![] }) + (if exists[3] { seq!["Cargo.toml"@] }
    else { seq![] })
}

// ---------------------------------------------------------------------------
// The supervisor
// ---------------------------------------------------------------------------

/// What the supervisor learned last.
#[derive(Debug, Clone, Copy, PartialEq, Eq, Structural)]
pub enum SupervisorEvent {
    /// The child server exited, successfully or not.
    ChildExited { success: bool },
    /// The child server is still running.
    ChildRunning,
    /// No relevant change arrived.
    NoChange,
    /// A relevant change arrived.
    ChangeDetected,
    /// The rebuild failed.
    BuildFailed,
    /// The rebuild succeeded.
    BuildSucceeded,
    /// The child server was restarted.
    Restarted,
}

/// What the supervisor does next.
#[derive(Debug, Clone, Copy, PartialEq, Eq, Structural)]
pub enum SupervisorAction {
    /// Stop supervising; report a failure status first if asked.
    Stop { report_failure: bool },
    /// Check whether the child server is still running.
    PollChild,
    /// Wait for a relevant change.
    WaitForChange,
    /// Rebuild the project.
    Build,
    /// Stop the child server and start the new build.
    Restart,
}

/// The supervisor's next action: it stops when the child exits (reporting a
/// failing status), waits for a change while the child runs, rebuilds on a
/// change, keeps the running child when the build fails, restarts it when
/// the build succeeds, and after any of these checks the child again.
pub fn supervisor_step(event: SupervisorEvent) -> (a: SupervisorAction)
    ensures
        a == match event {
            SupervisorEvent::ChildExited { success } => SupervisorAction::Stop {
                report_failure: !success,
            },
            SupervisorEvent::ChildRunning => SupervisorAction::WaitForChange,
            SupervisorEvent::NoChange => SupervisorAction::PollChild,
            SupervisorEvent::ChangeDetected => SupervisorAction::Build,
            SupervisorEvent::BuildFailed => SupervisorAction::PollChild,
            SupervisorEvent::BuildSucceeded => SupervisorAction::Restart,
            SupervisorEvent::Restarted => SupervisorAction::PollChild,
        },
{
    match event {
        SupervisorEvent::ChildExited { success } => SupervisorAction::Stop {
            report_failure: !success,
        },
        SupervisorEvent::ChildRunning => SupervisorAction::WaitForChange,
        SupervisorEvent::NoChange => SupervisorAction::PollChild,
        SupervisorEvent::ChangeDetected => SupervisorAction::Build,
        SupervisorEvent::BuildFailed => SupervisorAction::PollChild,
        SupervisorEvent::BuildSucceeded => SupervisorAction::Restart,
        SupervisorEvent::Restarted => SupervisorAction::PollChild,
    }
}

// ---------------------------------------------------------------------------
// Decisions of the server
// ---------------------------------------------------------------------------

/// Whether an environment variable's value (absent, or not Unicode, when
/// `None`) turns a feature on.
pub open spec fn flag_on(value: Option<Seq<char>>) -> bool {
    match value {
        Some(v) => truthy_spec(v),
        None => false,
    }
}

/// The view of an optional string slice.
pub open spec fn opt_str_view(s: Option<&str>) -> Option<Seq<char>> {
    match s {
        Some(x) => Some(x@),
        None => None,
    }
}

impl Unipotato<()> {
    /// Whether a flag value turns a feature on.
    pub fn is_truthy_flag(value: &str) -> (r: bool)
        ensures
            r == truthy_spec(value@),
    {
        let t = text::to_ascii_lowercase(text::trim(value).as_str());
        let s = t.as_str();
        text::str_eq(s, "1") || text::str_eq(s, "true") || text::str_eq(s, "yes") || text::str_eq(
            s,
            "on",
        )
    }

    fn flag_enabled(value: Option<&str>) -> (r: bool)
        ensures
            r == flag_on(opt_str_view(value)),
    {
        match value {
            Some(v) => Self::is_truthy_flag(v),
            None => false,
        }
    }

    /// Whether `start` runs the auto-reload supervisor: the reload flag is on
    /// and this process is not the supervised child.
    pub fn should_run_dev_supervisor(reload_flag: Option<&str>, child_flag: Option<&str>) -> (r: bool)
        ensures
            r == (flag_on(opt_str_view(reload_flag)) && !flag_on(opt_str_view(child_flag))),
    {
        Self::flag_enabled(reload_flag) && !Self::flag_enabled(child_flag)
    }

    /// Whether a connection error (given by its message) only means that the
    /// client closed the connection.
    pub fn is_benign_connection_error(message: &str) -> (r: bool)
        ensures
            r == benign_spec(message@),
    {
        let lowered = text::to_ascii_lowercase(message);
        let m = lowered.as_str();
        text::contains(m, "incompletemessage") || text::contains(
            m,
            "connection closed before message completed",
        ) || text::contains(m, "connection reset by peer") || text::contains(m, "broken pipe")
    }

    /// Whether a change to this path triggers a rebuild.
    pub fn is_relevant_path(path: &WatchedPath) -> (r: bool)
        ensures
            r == relevant_path_spec(
                path.text@,
                opt_view(path.extension),
                opt_view(path.file_name),
            ),
    {
        let t = path.text.as_str();
        if text::contains(t, "/target/") || text::ends_with(t, "/target") {
            return false;
        }
        if opt_eq(&path.extension, "rs") || opt_eq(&path.extension, "toml") {
            return true;
        }
        opt_eq(&path.file_name, "Cargo.toml")
    }

    /// Whether an event triggers a rebuild.
    pub fn is_relevant_event(event: &WatchEvent) -> (r: bool)
        ensures
            r == relevant_event_spec(*event),
    {
        let n = event.paths.len();
        let mut any = false;
        for i in 0..n
            invariant
                n == event.paths@.len(),
                any <==> exists|j: int|
                    0 <= j < i && relevant_path_spec(
                        #[trigger] event.paths@[j].text@,
                        opt_view(event.paths@[j].extension),
                        opt_view(event.paths@[j].file_name),
                    ),
        {
            if Self::is_relevant_path(&event.paths[i]) {
                any = true;
            }
        }
        if !any {
            return false;
        }
        match event.kind {
            ChangeKind::Create | ChangeKind::Modify | ChangeKind::Remove => true,
            ChangeKind::Other => false,
        }
    }
}

// ---------------------------------------------------------------------------
// Laws
// ---------------------------------------------------------------------------

/// A source file outside `target` triggers a rebuild when it is created,
/// modified or removed: an event of one of these three kinds that concerns a
/// `.rs` file, a `.toml` file or `Cargo.toml` whose path has no `/target/`
/// and does not end in `/target` triggers a rebuild; an event of any other
/// kind, or one that concerns only paths under `target`, never does.
pub proof fn law_source_changes_trigger_rebuild(event: WatchEvent)
    ensures
        (event.kind == ChangeKind::Create || event.kind == ChangeKind::Modify || event.kind
            == ChangeKind::Remove) && (exists|i: int|
            0 <= i < event.paths@.len() && {
                let p = #[trigger] event.paths@[i];
                &&& !contains_seq(p.text@, "/target/"@)
                &&& !ends_with_seq(p.text@, "/target"@)
                &&& (opt_view(p.extension) == Some("rs"@) || opt_view(p.extension) == Some(
                    "toml"@,
                ) || opt_view(p.file_name) == Some("Cargo.toml"@))
            }) ==> relevant_event_spec(event),
        event.kind == ChangeKind::Other ==> !relevant_event_spec(event),
        (forall|i: int|
            0 <= i < event.paths@.len() ==> contains_seq(
                (#[trigger] event.paths@[i]).text@,
                "/target/"@,
            )) ==> !relevant_event_spec(event),
{
    if exists|i: int|
        0 <= i < event.paths@.len() && {
            let p = #[trigger] event.paths@[i];
            &&& !contains_seq(p.text@, "/target/"@)
            &&& !ends_with_seq(p.text@, "/target"@)
            &&& (opt_view(p.extension) == Some("rs"@) || opt_view(p.extension) == Some("toml"@)
                || opt_view(p.file_name) == Some("Cargo.toml"@))
        } {
        let i = choose|i: int|
            0 <= i < event.paths@.len() && {
                let p = #[trigger] event.paths@[i];
                &&& !contains_seq(p.text@, "/target/"@)
                &&& !ends_with_seq(p.text@, "/target"@)
                &&& (opt_view(p.extension) == Some("rs"@) || opt_view(p.extension) == Some(
                    "toml"@,
                ) || opt_view(p.file_name) == Some("Cargo.toml"@))
            };
        let p = event.paths@[i];
        assert(relevant_path_spec(p.text@, opt_view(p.extension), opt_view(p.file_name)));
    }
}

} // verus!
