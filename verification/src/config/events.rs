//! What happens to the definitions when files come, change and go.

use crate::config::store;
use crate::config::store::ConfigStore;
use crate::config::store::StoredConfig;
use crate::config::utils;
use crate::config::ScaleMessage;
use crate::config::ServiceConfig;
use crate::container::lifecycle;
use crate::container::scaling;
use crate::stores;
use crate::text;
use rustc_hash::FxHashSet;
use std::sync::Arc;
use vstd::prelude::*;
use vstd::string::*;

verus! {

/// What happened to a file.
#[derive(Clone, Copy, PartialEq, Eq, Structural, Debug)]
pub enum FileEvent {
    Create,
    Modify,
    Remove,
    Other,
}

/// A path that an event is about.
#[derive(Debug)]
pub struct EventPath {
    pub path: String,
    /// The extension, where there is one that is a text.
    pub extension: Option<String>,
    /// There is a file at the path.
    pub is_file: bool,
}

/// The extension of a definition.
pub open spec fn yaml(extension: Option<String>) -> bool {
    extension is Some && (extension->0@ == "yml"@ || extension->0@ == "yaml"@)
}

/// Whether an extension is that of a definition.
pub fn is_yaml(extension: &Option<String>) -> (r: bool)
    ensures
        r == yaml(*extension),
{
    match extension {
        Some(e) => text::same(e.as_str(), "yml") || text::same(e.as_str(), "yaml"),
        None => false,
    }
}

/// `s` ends with `end`.
pub open spec fn ends_with(s: Seq<char>, end: Seq<char>) -> bool {
    text::occurs_at(s, end, s.len() - end.len())
}

/// Whether a text ends with another.
fn has_ending(s: &str, end: &str) -> (r: bool)
    ensures
        r == ends_with(s@, end@),
{
    let chars: Vec<char> = text::chars_of(s);
    let tail: Vec<char> = text::chars_of(end);
    if tail.len() > chars.len() {
        return false;
    }
    text::occurs_here(&chars, &tail, chars.len() - tail.len())
}

/// Whether a file is read as a definition.
pub fn is_yaml_path(path: &str) -> (r: bool)
    ensures
        r == (ends_with(path@, ".yml"@) || ends_with(path@, ".yaml"@)),
{
    has_ending(path, ".yml") || has_ending(path, ".yaml")
}

/// Whether an event is of interest: something came, changed or went, and one of
/// the paths has the extension of a definition.
pub fn wants_event(kind: FileEvent, extensions: &Vec<Option<String>>) -> (r: bool)
    ensures
        r == (kind != FileEvent::Other && exists|i: int| 0 <= i < extensions@.len() && yaml(#[trigger] extensions@[i])),
        r == of_interest(kind, extensions@),
{
    if kind == FileEvent::Other {
        return false;
    }
    let mut i: usize = 0;
    while i < extensions.len()
        invariant
            i <= extensions@.len(),
            kind != FileEvent::Other,
            forall|j: int| 0 <= j < i ==> !yaml(#[trigger] extensions@[j]),
        decreases extensions@.len() - i,
    {
        if is_yaml(&extensions[i]) {
            assert(yaml(extensions@[i as int]));
            return true;
        }
        i = i + 1;
    }
    false
}

/// What an event calls for at one path.
#[derive(Debug)]
pub enum PathStep {
    /// Nothing.
    Ignore,
    /// Read the file and put it in force.
    Load,
    /// The definition is out of force: take down this service.
    TakeDown(String),
}

/// A file that came or changed is to be read: it is there, and its extension, if
/// any, is that of a definition.
pub open spec fn to_load(p: EventPath) -> bool {
    p.is_file && (p.extension is Some ==> yaml(p.extension))
}

/// The services that have a scaling task.
pub type TaskNames = FxHashSet<String>;

/// The definitions in force, and the services that have a scaling task.
pub struct EventState {
    pub held: Map<Seq<char>, Arc<StoredConfig>>,
    pub tasks: Set<Seq<char>>,
}

/// What the store of definitions and the record of tasks say.
pub open spec fn event_state(m: ConfigStore, tasks: TaskNames) -> EventState {
    EventState { held: store::stored(m), tasks: stores::members(tasks) }
}

/// The definition came in force under the path, and its service has a scaling
/// task. Nothing else has changed.
pub open spec fn put_in_force(before: EventState, path: Seq<char>, config: ServiceConfig, after: EventState) -> bool {
    &&& after.held.dom() == before.held.dom().insert(path)
    &&& after.held[path].path@ == path
    &&& after.held[path].config == config
    &&& forall|k: Seq<char>| k != path ==> #[trigger] after.held[k] == before.held[k]
    &&& after.tasks == before.tasks.insert(config.name@)
}

/// The definition under the path is out of force, and its service has lost its
/// scaling task. Nothing else has changed.
pub open spec fn put_out_of_force(before: EventState, path: Seq<char>) -> EventState {
    EventState {
        held: before.held.remove(path),
        tasks: if before.held.contains_key(path) {
            before.tasks.remove(before.held[path].config.name@)
        } else {
            before.tasks
        },
    }
}

/// Takes in an event at one path. A definition whose file went is put out of
/// force, and its service loses its scaling task.
pub fn process_event(m: &mut ConfigStore, tasks: &mut TaskNames, kind: FileEvent, p: &EventPath) -> (r: PathStep)
    ensures
        ({
            let before = event_state(*old(m), *old(tasks));
            let after = event_state(*final(m), *final(tasks));
            match kind {
                FileEvent::Create | FileEvent::Modify => {
                    &&& after == before
                    &&& if to_load(*p) {
                        r is Load
                    } else {
                        r is Ignore
                    }
                },
                FileEvent::Remove => {
                    &&& after == put_out_of_force(before, p.path@)
                    &&& if before.held.contains_key(p.path@) {
                        r matches PathStep::TakeDown(n) && n@ == before.held[p.path@].config.name@
                    } else {
                        r is Ignore
                    }
                },
                FileEvent::Other => r is Ignore && after == before,
            }
        }),
        is_path_step(r, kind, *p, store::stored(*old(m))),
{
    match kind {
        FileEvent::Create | FileEvent::Modify => {
            if p.is_file && (p.extension.is_none() || is_yaml(&p.extension)) {
                PathStep::Load
            } else {
                PathStep::Ignore
            }
        },
        FileEvent::Remove => match store::take(m, p.path.as_str()) {
            Some(c) => {
                let _ = stores::set_remove(tasks, c.config.name.as_str());
                PathStep::TakeDown(c.config.name.clone())
            },
            None => PathStep::Ignore,
        },
        FileEvent::Other => PathStep::Ignore,
    }
}

/// Puts a definition in force that was read from a file, and gives its service a
/// scaling task.
pub fn load_config(m: &mut ConfigStore, tasks: &mut TaskNames, path: &str, config: ServiceConfig)
    ensures
        put_in_force(
            event_state(*old(m), *old(tasks)),
            path@,
            config,
            event_state(*final(m), *final(tasks)),
        ),
{
    let _ = stores::set_insert(tasks, config.name.clone());
    store::store_config(m, path, config);
    assert(store::stored(*m).dom() =~= store::stored(*old(m)).dom().insert(path@)) by {
        assert forall|k: Seq<char>| store::stored(*m).contains_key(k) == store::stored(*old(m)).dom().insert(
            path@,
        ).contains(k) by {
            if k != path@ {
                assert(store::stored(*m).contains_key(k) == store::stored(*old(m)).contains_key(k));
            }
        }
    }
    assert forall|k: Seq<char>| k != path@ implies #[trigger] store::stored(*m)[k] == store::stored(*old(m))[k] by {
        assert(store::stored(*m).contains_key(k) == store::stored(*old(m)).contains_key(k));
    }
}

/// The paths of the definitions in force, each once.
pub fn tracked_paths(m: &ConfigStore) -> (r: Vec<String>)
    ensures
        lifecycle::texts(r@).no_duplicates(),
        forall|k: Seq<char>| lifecycle::texts(r@).contains(k) == store::stored(*m).contains_key(k),
{
    let entries: Vec<(String, Arc<StoredConfig>)> = store::all(m);
    let mut r: Vec<String> = Vec::new();
    let mut i: usize = 0;
    while i < entries.len()
        invariant
            i <= entries@.len(),
            r@.len() == i,
            forall|j: int| 0 <= j < i ==> (#[trigger] r@[j])@ == entries@[j].0@,
        decreases entries@.len() - i,
    {
        r.push(entries[i].0.clone());
        i = i + 1;
    }
    proof {
        let held = store::stored(*m);
        let texts = lifecycle::texts(r@);
        assert forall|a: int, b: int| 0 <= a < texts.len() && 0 <= b < texts.len() && a != b implies texts[a]
            != texts[b] by {
            assert(texts[a] == entries@[a].0@);
            assert(texts[b] == entries@[b].0@);
            if a < b {
                assert(entries@[a].0@ != entries@[b].0@);
            } else {
                assert(entries@[b].0@ != entries@[a].0@);
            }
        }
        assert forall|k: Seq<char>| texts.contains(k) == held.contains_key(k) by {
            if held.contains_key(k) {
                let j = choose|j: int| 0 <= j < entries@.len() && (#[trigger] entries@[j]).0@ == k;
                assert(texts[j] == k);
            }
            if texts.contains(k) {
                let j = choose|j: int| 0 <= j < texts.len() && texts[j] == k;
                assert(entries@[j].0@ == k);
            }
        }
    }
    r
}

/// What was found at the path of a definition in force.
#[derive(Debug)]
pub struct PathCheck {
    pub path: String,
    pub exists: bool,
    pub extension: Option<String>,
}

/// The definition is no longer valid: its file is gone, or is not one of a
/// definition.
pub open spec fn stale(c: PathCheck) -> bool {
    !c.exists || !yaml(c.extension)
}

/// The definitions left in force, and the services to take down, in order.
pub open spec fn swept(
    m: Map<Seq<char>, Arc<StoredConfig>>,
    checks: Seq<PathCheck>,
) -> (Map<Seq<char>, Arc<StoredConfig>>, Seq<Seq<char>>)
    decreases checks.len(),
{
    if checks.len() == 0 {
        (m, Seq::empty())
    } else {
        let (held, names) = swept(m, checks.drop_last());
        let c = checks.last();
        if stale(c) && held.contains_key(c.path@) {
            (held.remove(c.path@), names.push(held[c.path@].config.name@))
        } else {
            (held, names)
        }
    }
}

/// The definitions left in force after a sweep, and the services that have a
/// scaling task then.
pub open spec fn swept_state(before: EventState, checks: Seq<PathCheck>) -> EventState {
    let (held, names) = swept(before.held, checks);
    EventState { held, tasks: before.tasks.difference(names.to_set()) }
}

/// Puts definitions out of force that are no longer valid; their services lose
/// their scaling tasks. The result names the services to take down.
pub fn sweep(m: &mut ConfigStore, tasks: &mut TaskNames, checks: &Vec<PathCheck>) -> (r: Vec<String>)
    ensures
        event_state(*final(m), *final(tasks)) == swept_state(event_state(*old(m), *old(tasks)), checks@),
        lifecycle::texts(r@) == swept(store::stored(*old(m)), checks@).1,
{
    let ghost before = store::stored(*m);
    let ghost had_tasks = stores::members(*tasks);
    let mut r: Vec<String> = Vec::new();
    let mut i: usize = 0;
    assert(checks@.take(0) =~= Seq::empty());
    assert(lifecycle::texts(r@) =~= Seq::empty());
    assert(had_tasks.difference(lifecycle::texts(r@).to_set()) =~= had_tasks);
    while i < checks.len()
        invariant
            i <= checks@.len(),
            (store::stored(*m), lifecycle::texts(r@)) == swept(before, checks@.take(i as int)),
            stores::members(*tasks) == had_tasks.difference(lifecycle::texts(r@).to_set()),
        decreases checks@.len() - i,
    {
        let c: &PathCheck = &checks[i];
        let ghost names = lifecycle::texts(r@);
        proof {
            assert(checks@.take(i + 1).drop_last() =~= checks@.take(i as int));
            assert(checks@.take(i + 1).last() == checks@[i as int]);
        }
        if !c.exists || !is_yaml(&c.extension) {
            let ghost held = store::stored(*m);
            match store::take(m, c.path.as_str()) {
                Some(gone) => {
                    let name: String = gone.config.name.clone();
                    let ghost text = name@;
                    let _ = stores::set_remove(tasks, name.as_str());
                    r.push(name);
                    proof {
                        assert(lifecycle::texts(r@) =~= names.push(text));
                        names.lemma_push_to_set_commute(text);
                        assert(stores::members(*tasks) =~= had_tasks.difference(lifecycle::texts(r@).to_set()));
                    }
                },
                None => {
                    assert(held.remove(c.path@) =~= held);
                },
            }
        }
        i = i + 1;
    }
    assert(checks@.take(i as int) =~= checks@);
    r
}

/// A sweep leaves no stale definition in force, and keeps the others.
pub proof fn sweeping_leaves_what_is_valid(
    m: Map<Seq<char>, Arc<StoredConfig>>,
    checks: Seq<PathCheck>,
    k: Seq<char>,
)
    ensures
        swept(m, checks).0.contains_key(k) == (m.contains_key(k) && !exists|i: int|
            0 <= i < checks.len() && stale(#[trigger] checks[i]) && checks[i].path@ == k),
        swept(m, checks).0.contains_key(k) ==> swept(m, checks).0[k] == m[k],
    decreases checks.len(),
{
    if checks.len() > 0 {
        let rest = checks.drop_last();
        sweeping_leaves_what_is_valid(m, rest, k);
        let n = checks.len() - 1;
        if exists|i: int| 0 <= i < checks.len() && stale(#[trigger] checks[i]) && checks[i].path@ == k {
            let i = choose|i: int| 0 <= i < checks.len() && stale(#[trigger] checks[i]) && checks[i].path@ == k;
            if i < n {
                assert(stale(rest[i]) && rest[i].path@ == k);
            }
        }
        if exists|i: int| 0 <= i < rest.len() && stale(#[trigger] rest[i]) && rest[i].path@ == k {
            let i = choose|i: int| 0 <= i < rest.len() && stale(#[trigger] rest[i]) && rest[i].path@ == k;
            assert(stale(checks[i]) && checks[i].path@ == k);
        }
        if stale(checks.last()) && checks.last().path@ == k {
            assert(stale(checks[n]) && checks[n].path@ == k);
        }
    }
}

/// A sweep names the service of every definition that it puts out of force.
proof fn lemma_named(m: Map<Seq<char>, Arc<StoredConfig>>, checks: Seq<PathCheck>, k: Seq<char>)
    requires
        m.contains_key(k),
        !swept(m, checks).0.contains_key(k),
    ensures
        swept(m, checks).1.contains(m[k].config.name@),
    decreases checks.len(),
{
    let rest = checks.drop_last();
    let (held, names) = swept(m, rest);
    let all = swept(m, checks).1;
    if held.contains_key(k) {
        sweeping_leaves_what_is_valid(m, rest, k);
        assert(all[names.len() as int] == m[k].config.name@);
    } else {
        lemma_named(m, rest, k);
        let j = choose|j: int| 0 <= j < names.len() && names[j] == m[k].config.name@;
        assert(all[j] == names[j]);
    }
}

/// One file event: its paths, what was read at each, and the states in between.
pub struct EventRun {
    pub kind: FileEvent,
    pub paths: Seq<EventPath>,
    /// What was read at each path; nothing where it is no definition.
    pub parsed: Seq<Option<ServiceConfig>>,
    /// The state before each path, and the one after the last.
    pub states: Seq<EventState>,
    /// What was found afterwards at the paths of the definitions in force.
    pub checks: Seq<PathCheck>,
}

impl EventRun {
    /// The definition at the i-th path is put in force, or out of it.
    pub open spec fn acts(self, i: int) -> bool {
        match self.kind {
            FileEvent::Create | FileEvent::Modify => to_load(self.paths[i]) && self.parsed[i] is Some,
            FileEvent::Remove => true,
            FileEvent::Other => false,
        }
    }

    /// The state after the i-th path follows on the one before.
    pub open spec fn steps(self, i: int) -> bool {
        let (before, after) = (self.states[i], self.states[i + 1]);
        if !self.acts(i) {
            after == before
        } else if self.kind is Remove {
            after == put_out_of_force(before, self.paths[i].path@)
        } else {
            put_in_force(before, self.paths[i].path@, self.parsed[i]->0, after)
        }
    }

    /// A definition under the path is put in force, or out of it, from the i-th
    /// path on.
    pub open spec fn acts_on(self, k: Seq<char>, from: int) -> bool {
        exists|i: int| from <= i < self.paths.len() && #[trigger] self.acts(i) && self.paths[i].path@ == k
    }

    /// Each path follows on the one before, and at the end every definition in
    /// force is looked for.
    pub open spec fn valid(self) -> bool {
        &&& self.parsed.len() == self.paths.len()
        &&& self.states.len() == self.paths.len() + 1
        &&& forall|i: int| 0 <= i < self.paths.len() ==> #[trigger] self.steps(i)
        &&& forall|k: Seq<char>| #[trigger] self.states.last().held.contains_key(k) ==> looked_for(self.checks, k)
    }

    /// What is found at the end at the j-th path is what the i-th path of the event
    /// showed.
    pub open spec fn agrees(self, i: int, j: int) -> bool {
        self.checks[j].path@ == self.paths[i].path@ ==> (self.paths[i].is_file ==> self.checks[j].exists) && yaml(
            self.checks[j].extension,
        ) == yaml(self.paths[i].extension)
    }

    /// The files do not change in the course of the event.
    pub open spec fn files_stay(self) -> bool {
        forall|i: int, j: int|
            0 <= i < self.paths.len() && 0 <= j < self.checks.len() ==> #[trigger] self.agrees(i, j)
    }

    /// The state at the end of the event.
    pub open spec fn end(self) -> EventState {
        swept_state(self.states.last(), self.checks)
    }
}

/// The path is among those that were looked for.
pub open spec fn looked_for(checks: Seq<PathCheck>, k: Seq<char>) -> bool {
    exists|i: int| 0 <= i < checks.len() && (#[trigger] checks[i]).path@ == k
}

/// A file of a definition was found at the path.
pub open spec fn found(checks: Seq<PathCheck>, k: Seq<char>) -> bool {
    exists|i: int| 0 <= i < checks.len() && !stale(#[trigger] checks[i]) && checks[i].path@ == k
}

/// What was found at the path is no file of a definition.
pub open spec fn lost(checks: Seq<PathCheck>, k: Seq<char>) -> bool {
    exists|i: int| 0 <= i < checks.len() && stale(#[trigger] checks[i]) && checks[i].path@ == k
}

/// A definition that is not acted on stays as it is.
proof fn lemma_untouched(run: EventRun, k: Seq<char>, from: int, to: int)
    requires
        run.valid(),
        0 <= from <= to <= run.paths.len(),
        forall|i: int| from <= i < to ==> !(#[trigger] run.acts(i) && run.paths[i].path@ == k),
    ensures
        run.states[to].held.contains_key(k) == run.states[from].held.contains_key(k),
        run.states[to].held[k] == run.states[from].held[k],
    decreases to - from,
{
    if from < to {
        lemma_untouched(run, k, from, to - 1);
        assert(run.steps(to - 1));
        assert(!(run.acts(to - 1) && run.paths[to - 1].path@ == k));
    }
}

/// No tasks come while files go, and none go while they come.
proof fn lemma_tasks(run: EventRun, name: Seq<char>, from: int, to: int)
    requires
        run.valid(),
        0 <= from <= to <= run.paths.len(),
    ensures
        run.kind is Remove && run.states[to].tasks.contains(name) ==> run.states[from].tasks.contains(name),
        !(run.kind is Remove) && run.states[from].tasks.contains(name) ==> run.states[to].tasks.contains(name),
    decreases to - from,
{
    if from < to {
        lemma_tasks(run, name, from, to - 1);
        assert(run.steps(to - 1));
    }
}

/// The first of some paths at which a definition is acted on.
proof fn lemma_first_act(run: EventRun, k: Seq<char>, i: int) -> (first: int)
    requires
        0 <= i < run.paths.len(),
        run.acts(i),
        run.paths[i].path@ == k,
    ensures
        0 <= first <= i,
        run.acts(first),
        run.paths[first].path@ == k,
        forall|j: int| 0 <= j < first ==> !(#[trigger] run.acts(j) && run.paths[j].path@ == k),
    decreases i,
{
    if exists|j: int| 0 <= j < i && #[trigger] run.acts(j) && run.paths[j].path@ == k {
        let j = choose|j: int| 0 <= j < i && #[trigger] run.acts(j) && run.paths[j].path@ == k;
        lemma_first_act(run, k, j)
    } else {
        i
    }
}

/// The last of some paths at which a definition is acted on.
proof fn lemma_last_act(run: EventRun, k: Seq<char>, i: int) -> (last: int)
    requires
        0 <= i < run.paths.len(),
        run.acts(i),
        run.paths[i].path@ == k,
    ensures
        i <= last < run.paths.len(),
        run.acts(last),
        run.paths[last].path@ == k,
        !run.acts_on(k, last + 1),
    decreases run.paths.len() - i,
{
    if run.acts_on(k, i + 1) {
        let j = choose|j: int| i + 1 <= j < run.paths.len() && #[trigger] run.acts(j) && run.paths[j].path@ == k;
        lemma_last_act(run, k, j)
    } else {
        i
    }
}

/// At the end of a file event a definition is in force only where its file was
/// found, and one that the event is not about is as it was before, if its file
/// was found. A definition that went out of force for want of its file leaves no
/// scaling task behind.
pub proof fn events_leave_valid_definitions(run: EventRun, k: Seq<char>)
    requires
        run.valid(),
    ensures
        run.end().held.contains_key(k) ==> found(run.checks, k) && !lost(run.checks, k),
        !run.acts_on(k, 0) && !lost(run.checks, k) ==> run.end().held.contains_key(k)
            == run.states[0].held.contains_key(k) && (run.end().held.contains_key(k) ==> run.end().held[k]
            == run.states[0].held[k]),
        run.states.last().held.contains_key(k) && lost(run.checks, k) ==> !run.end().held.contains_key(k)
            && !run.end().tasks.contains(run.states.last().held[k].config.name@),
{
    let last = run.states.last();
    sweeping_leaves_what_is_valid(last.held, run.checks, k);
    if run.end().held.contains_key(k) {
        assert(looked_for(run.checks, k));
        let i = choose|i: int| 0 <= i < run.checks.len() && (#[trigger] run.checks[i]).path@ == k;
        assert(!stale(run.checks[i]));
    }
    if !run.acts_on(k, 0) {
        lemma_untouched(run, k, 0, run.paths.len() as int);
    }
    if last.held.contains_key(k) && lost(run.checks, k) {
        lemma_named(last.held, run.checks, k);
    }
}

/// A definition whose file went is out of force at the end of the event, and its
/// service has no scaling task.
pub proof fn removed_files_take_their_services_along(run: EventRun, i: int)
    requires
        run.valid(),
        run.kind is Remove,
        0 <= i < run.paths.len(),
    ensures
        !run.end().held.contains_key(run.paths[i].path@),
        run.states[0].held.contains_key(run.paths[i].path@) ==> !run.end().tasks.contains(
            run.states[0].held[run.paths[i].path@].config.name@,
        ),
{
    let k = run.paths[i].path@;
    let n = run.paths.len() as int;
    assert(run.acts(i));
    let first = lemma_first_act(run, k, i);
    assert(run.steps(first));
    lemma_untouched(run, k, 0, first);
    lemma_gone(run, k, first + 1, n);
    sweeping_leaves_what_is_valid(run.states[n].held, run.checks, k);
    lemma_tasks(run, run.states[0].held[k].config.name@, first + 1, n);
}

/// While files go, no definition comes in force.
proof fn lemma_gone(run: EventRun, k: Seq<char>, from: int, to: int)
    requires
        run.valid(),
        run.kind is Remove,
        0 <= from <= to <= run.paths.len(),
        !run.states[from].held.contains_key(k),
    ensures
        !run.states[to].held.contains_key(k),
    decreases to - from,
{
    if from < to {
        lemma_gone(run, k, from, to - 1);
        assert(run.steps(to - 1));
    }
}

/// A definition that was read from a file that came or changed is in force at the
/// end of the event, unless the file was read again or is gone by then. Its
/// service has a scaling task, unless another definition of it went out of force.
pub proof fn loaded_files_come_in_force(run: EventRun, i: int)
    requires
        run.valid(),
        run.kind is Create || run.kind is Modify,
        0 <= i < run.paths.len(),
        to_load(run.paths[i]),
        run.parsed[i] is Some,
        !run.acts_on(run.paths[i].path@, i + 1),
        !lost(run.checks, run.paths[i].path@),
    ensures
        ({
            let k = run.paths[i].path@;
            let name = run.parsed[i]->0.name@;
            &&& run.end().held.contains_key(k)
            &&& run.end().held[k].path@ == k
            &&& run.end().held[k].config == run.parsed[i]->0
            &&& !swept(run.states.last().held, run.checks).1.contains(name) ==> run.end().tasks.contains(name)
        }),
{
    let k = run.paths[i].path@;
    let n = run.paths.len() as int;
    assert(run.acts(i));
    assert(run.steps(i));
    assert(run.states[i + 1].held.dom().contains(k));
    lemma_untouched(run, k, i + 1, n);
    sweeping_leaves_what_is_valid(run.states[n].held, run.checks, k);
    lemma_tasks(run, run.parsed[i]->0.name@, i + 1, n);
}

/// Where the files of an event do not change in its course, a file of a definition
/// that came or changed decides what is in force under its path at the end: what
/// was read from it, or what was before where nothing could be read.
pub proof fn files_decide_their_definitions(run: EventRun, i: int)
    requires
        run.valid(),
        run.files_stay(),
        run.kind is Create || run.kind is Modify,
        0 <= i < run.paths.len(),
        run.paths[i].is_file,
        yaml(run.paths[i].extension),
        forall|j: int|
            0 <= j < run.paths.len() && (#[trigger] run.paths[j]).path@ == run.paths[i].path@ ==> run.parsed[j]
                == run.parsed[i],
    ensures
        ({
            let k = run.paths[i].path@;
            let (before, after) = (run.states[0].held, run.end().held);
            match run.parsed[i] {
                Some(config) => after.contains_key(k) && after[k].path@ == k && after[k].config == config,
                None => after.contains_key(k) == before.contains_key(k) && (after.contains_key(k) ==> after[k]
                    == before[k]),
            }
        }),
{
    let k = run.paths[i].path@;
    assert(!lost(run.checks, k)) by {
        if lost(run.checks, k) {
            let j = choose|j: int|
                0 <= j < run.checks.len() && stale(#[trigger] run.checks[j]) && run.checks[j].path@ == k;
            assert(run.agrees(i, j));
        }
    }
    match run.parsed[i] {
        Some(_) => {
            assert(run.acts(i));
            let last = lemma_last_act(run, k, i);
            assert(run.paths[last].path@ == k);
            loaded_files_come_in_force(run, last);
        },
        None => {
            assert(!run.acts_on(k, 0)) by {
                if run.acts_on(k, 0) {
                    let j = choose|j: int| 0 <= j < run.paths.len() && #[trigger] run.acts(j) && run.paths[j].path@ == k;
                    assert(run.paths[j].path@ == k);
                }
            }
            events_leave_valid_definitions(run, k);
        },
    }
}

/// What a change of definition calls for.
#[derive(Clone, Copy, PartialEq, Eq, Structural, Debug)]
pub struct UpdateSteps {
    /// Start a scaling task.
    pub start_task: bool,
    /// What the scaling task is told before the change.
    pub before: Option<ScaleMessage>,
    /// What the scaling task is told after the change.
    pub after: Option<ScaleMessage>,
}

/// A service without a scaling task gets one; the task of another is paused for
/// the change.
pub open spec fn update_steps(has_task: bool) -> UpdateSteps {
    if has_task {
        UpdateSteps { start_task: false, before: Some(ScaleMessage::ConfigUpdate), after: Some(ScaleMessage::Resume) }
    } else {
        UpdateSteps { start_task: true, before: None, after: None }
    }
}

/// What a change of definition calls for: a service without a scaling task gets
/// one, and the task of another is paused for the change.
pub fn config_update_steps(has_task: bool) -> (r: UpdateSteps)
    ensures
        r == update_steps(has_task),
{
    if has_task {
        UpdateSteps { start_task: false, before: Some(ScaleMessage::ConfigUpdate), after: Some(ScaleMessage::Resume) }
    } else {
        UpdateSteps { start_task: true, before: None, after: None }
    }
}

/// Puts a changed definition of a service in the place of one that is in force;
/// where none is, nothing changes.
pub fn handle_config_update(m: &mut ConfigStore, service_name: &str, config: ServiceConfig)
    ensures
        ({
            let before = store::stored(*old(m));
            let after = store::stored(*final(m));
            if exists|k: Seq<char>| #[trigger] utils::defines(before, k, service_name@) {
                exists|k: Seq<char>|
                    {
                        &&& #[trigger] utils::defines(before, k, service_name@)
                        &&& replaced(before, after, k, config)
                    }
            } else {
                *final(m) == *old(m)
            }
        }),
{
    let entries: Vec<(String, Arc<StoredConfig>)> = store::all(m);
    let ghost held = store::stored(*m);
    let mut i: usize = 0;
    while i < entries.len()
        invariant
            i <= entries@.len(),
            held == store::stored(*m),
            *m == *old(m),
            store::lists(entries@, held),
            forall|j: int| 0 <= j < i ==> (#[trigger] entries@[j]).1.config.name@ != service_name@,
        decreases entries@.len() - i,
    {
        if text::same(entries[i].1.config.name.as_str(), service_name) {
            let path: String = entries[i].1.path.clone();
            let key: String = entries[i].0.clone();
            let ghost k = key@;
            assert(utils::defines(held, k, service_name@));
            store::put(m, key, Arc::new(StoredConfig { path, config }));
            assert(store::stored(*m).dom() =~= held.dom());
            assert(replaced(held, store::stored(*m), k, config));
            return;
        }
        i = i + 1;
    }
    proof {
        assert forall|k: Seq<char>| !#[trigger] utils::defines(held, k, service_name@) by {
            if utils::defines(held, k, service_name@) {
                let j = choose|j: int| 0 <= j < entries@.len() && (#[trigger] entries@[j]).0@ == k;
                assert(entries@[j].1.config.name@ != service_name@);
            }
        }
    }
}

/// Only the definition under `k` differs, and it is `config` from the same file.
pub open spec fn replaced(
    before: Map<Seq<char>, Arc<StoredConfig>>,
    after: Map<Seq<char>, Arc<StoredConfig>>,
    k: Seq<char>,
    config: ServiceConfig,
) -> bool {
    &&& after.dom() == before.dom()
    &&& after.contains_key(k)
    &&& after[k].config == config
    &&& after[k].path@ == before[k].path@
    &&& forall|n: Seq<char>| n != k ==> #[trigger] after[n] == before[n]
}

/// A pause for a change always ends: the last that a scaling task is told about a
/// change is to go on.
pub proof fn every_pause_is_lifted(paused: bool)
    ensures
        update_steps(true).before matches Some(b) && scaling::paused_after(paused, b),
        update_steps(true).after matches Some(a) && !scaling::paused_after(true, a),
{
}

/// A file is that of a definition exactly by the ending of its name.
pub proof fn definitions_are_told_by_their_extension(extension: Option<String>, p: EventPath)
    ensures
        yaml(extension) <==> (extension matches Some(e) && (e@ == "yml"@ || e@ == "yaml"@)),
        to_load(p) <==> p.is_file && (p.extension is None || (p.extension matches Some(e) && (e@ == "yml"@ || e@
            == "yaml"@))),
{
}

/// A text ends with another exactly where it is something with that text behind it.
pub proof fn endings_stand_at_the_end(before: Seq<char>, end: Seq<char>, s: Seq<char>)
    ensures
        ends_with(before + end, end),
        ends_with(s, end) ==> s == s.take(s.len() - end.len()) + end,
{
    let all = before + end;
    assert(all.subrange(before.len() as int, all.len() as int) =~= end);
    if ends_with(s, end) {
        let n = s.len() - end.len();
        assert(s.subrange(n, n + end.len()) == end);
        assert(s =~= s.take(n) + end);
    }
}

/// A definition that is put out of force leaves with its scaling task, and every other
/// definition and task stays.
pub proof fn only_one_definition_goes(before: EventState, path: Seq<char>, other: Seq<char>, name: Seq<char>)
    ensures
        !put_out_of_force(before, path).held.contains_key(path),
        other != path ==> put_out_of_force(before, path).held.contains_key(other) == before.held.contains_key(other),
        other != path && before.held.contains_key(other) ==> put_out_of_force(before, path).held[other]
            == before.held[other],
        before.held.contains_key(path) && name == before.held[path].config.name@ ==> !put_out_of_force(
            before,
            path,
        ).tasks.contains(name),
        !before.held.contains_key(path) || name != before.held[path].config.name@ ==> put_out_of_force(
            before,
            path,
        ).tasks.contains(name) == before.tasks.contains(name),
{
}

/// A definition that comes in force is there under its path with a scaling task for its
/// service, and every other definition and task stays.
pub proof fn only_one_definition_comes(
    before: EventState,
    path: Seq<char>,
    config: ServiceConfig,
    after: EventState,
    other: Seq<char>,
    name: Seq<char>,
)
    requires
        put_in_force(before, path, config, after),
    ensures
        after.held.contains_key(path),
        after.held[path].config == config,
        after.held[path].path@ == path,
        after.tasks.contains(config.name@),
        other != path ==> after.held.contains_key(other) == before.held.contains_key(other) && after.held[other]
            == before.held[other],
        name != config.name@ ==> after.tasks.contains(name) == before.tasks.contains(name),
{
    assert(after.held.dom().contains(path));
    if other != path {
        assert(after.held.dom().contains(other) == before.held.dom().contains(other));
        assert(after.held[other] == before.held[other]);
    }
}

/// A sweep puts out of force what it finds gone, and nothing else; the services of what
/// went lose their scaling tasks, and no others do.
pub proof fn sweeps_take_tasks_of_what_went(before: EventState, checks: Seq<PathCheck>, k: Seq<char>, name: Seq<char>)
    ensures
        before.held.contains_key(k) && !swept_state(before, checks).held.contains_key(k) ==> !swept_state(
            before,
            checks,
        ).tasks.contains(before.held[k].config.name@),
        swept_state(before, checks).tasks.contains(name) ==> before.tasks.contains(name),
        before.tasks.contains(name) && !swept_state(before, checks).tasks.contains(name) ==> exists|p: Seq<char>| #[trigger]
            before.held.contains_key(p) && !swept_state(before, checks).held.contains_key(p)
                && before.held[p].config.name@ == name,
{
    if before.held.contains_key(k) && !swept_state(before, checks).held.contains_key(k) {
        lemma_named(before.held, checks, k);
    }
    let names = swept(before.held, checks).1;
    if before.tasks.contains(name) && !swept_state(before, checks).tasks.contains(name) {
        assert(names.contains(name));
        let p = lemma_went(before.held, checks, name);
        assert(before.held.contains_key(p));
    }
}

/// A service that a sweep names is that of a definition that went.
proof fn lemma_went(m: Map<Seq<char>, Arc<StoredConfig>>, checks: Seq<PathCheck>, name: Seq<char>) -> (p: Seq<char>)
    requires
        swept(m, checks).1.contains(name),
    ensures
        m.contains_key(p),
        !swept(m, checks).0.contains_key(p),
        m[p].config.name@ == name,
    decreases checks.len(),
{
    let rest = checks.drop_last();
    let (held, names) = swept(m, rest);
    let all = swept(m, checks).1;
    let c = checks.last();
    let j = choose|j: int| 0 <= j < all.len() && all[j] == name;
    if j < names.len() {
        assert(names[j] == name);
        lemma_went(m, rest, name)
    } else {
        sweeping_leaves_what_is_valid(m, rest, c.path@);
        c.path@
    }
}

/// A change of definition replaces one definition of the service, from the same file, and
/// no other. A service without a scaling task gets one, and the task of another is told to
/// pause before and to go on after.
pub proof fn changes_replace_one_definition(
    before: Map<Seq<char>, Arc<StoredConfig>>,
    after: Map<Seq<char>, Arc<StoredConfig>>,
    k: Seq<char>,
    config: ServiceConfig,
    other: Seq<char>,
)
    requires
        replaced(before, after, k, config),
    ensures
        after.contains_key(other) == before.contains_key(other),
        other != k ==> after[other] == before[other],
        after[k].config == config,
        after[k].path@ == before[k].path@,
        update_steps(true) == (UpdateSteps {
            start_task: false,
            before: Some(ScaleMessage::ConfigUpdate),
            after: Some(ScaleMessage::Resume),
        }),
        update_steps(false) == (UpdateSteps { start_task: true, before: None, after: None }),
{
    assert(after.dom().contains(other) == before.dom().contains(other));
    if other != k {
        assert(after[other] == before[other]);
    }
}

/// Something came, changed or went at the path of a definition.
pub open spec fn of_interest(kind: FileEvent, extensions: Seq<Option<String>>) -> bool {
    kind != FileEvent::Other && exists|i: int| 0 <= i < extensions.len() && yaml(#[trigger] extensions[i])
}

/// An event is of interest exactly where something came, changed or went and one of its
/// paths, whichever, ends as a definition does.
pub proof fn one_definition_makes_an_event(kind: FileEvent, extensions: Seq<Option<String>>, i: int)
    ensures
        kind == FileEvent::Other ==> !of_interest(kind, extensions),
        kind != FileEvent::Other && 0 <= i < extensions.len() && (extensions[i] matches Some(e) && (e@ == "yml"@ || e@
            == "yaml"@)) ==> of_interest(kind, extensions),
        (forall|j: int|
            0 <= j < extensions.len() ==> ((#[trigger] extensions[j]) matches Some(e) ==> e@ != "yml"@ && e@ != "yaml"@))
            ==> !of_interest(kind, extensions),
{
    if 0 <= i < extensions.len() && (extensions[i] matches Some(e) && (e@ == "yml"@ || e@ == "yaml"@)) {
        assert(yaml(extensions[i]));
    }
}

/// A definition stays in force in a sweep exactly where every look at its path found a file
/// there, with an extension of a definition; and then as it is.
pub proof fn files_that_are_found_stay(m: Map<Seq<char>, Arc<StoredConfig>>, checks: Seq<PathCheck>, k: Seq<char>)
    ensures
        swept(m, checks).0.contains_key(k) <==> m.contains_key(k) && forall|i: int|
            0 <= i < checks.len() && (#[trigger] checks[i]).path@ == k ==> checks[i].exists && (
            checks[i].extension matches Some(e) && (e@ == "yml"@ || e@ == "yaml"@)),
        swept(m, checks).0.contains_key(k) ==> swept(m, checks).0[k] == m[k],
{
    sweeping_leaves_what_is_valid(m, checks, k);
    if exists|i: int| 0 <= i < checks.len() && stale(#[trigger] checks[i]) && checks[i].path@ == k {
        let i = choose|i: int| 0 <= i < checks.len() && stale(#[trigger] checks[i]) && checks[i].path@ == k;
        assert(checks[i].path@ == k);
    } else {
        assert forall|i: int| 0 <= i < checks.len() && (#[trigger] checks[i]).path@ == k implies checks[i].exists && (
        checks[i].extension matches Some(e) && (e@ == "yml"@ || e@ == "yaml"@)) by {
            assert(!stale(checks[i]));
        }
    }
}

/// `r` is what an event calls for at one path.
pub open spec fn is_path_step(
    r: PathStep,
    kind: FileEvent,
    p: EventPath,
    held: Map<Seq<char>, Arc<StoredConfig>>,
) -> bool {
    match kind {
        FileEvent::Create | FileEvent::Modify => if to_load(p) {
            r is Load
        } else {
            r is Ignore
        },
        FileEvent::Remove => if held.contains_key(p.path@) {
            r matches PathStep::TakeDown(n) && n@ == held[p.path@].config.name@
        } else {
            r is Ignore
        },
        FileEvent::Other => r is Ignore,
    }
}

/// A file that came or changed is read where it can be a definition, and only then; a file
/// that went takes down the service of the definition that it held, if it held one; nothing
/// else is acted on.
pub proof fn paths_are_acted_on_by_kind(
    r: PathStep,
    kind: FileEvent,
    p: EventPath,
    held: Map<Seq<char>, Arc<StoredConfig>>,
)
    requires
        is_path_step(r, kind, p, held),
    ensures
        r is Load <==> (kind is Create || kind is Modify) && p.is_file && (p.extension is None || (
        p.extension matches Some(e) && (e@ == "yml"@ || e@ == "yaml"@))),
        r is TakeDown <==> kind is Remove && held.contains_key(p.path@),
        r matches PathStep::TakeDown(n) ==> n@ == held[p.path@].config.name@,
{
}

} // verus!
