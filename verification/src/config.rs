//! The configuration model: which processes to watch and what to do when
//! one of them starts.

use vstd::prelude::*;

verus! {

/// What to do with a program when a watched process starts.
#[derive(Debug, Clone, Copy, PartialEq, Eq, Structural)]
pub enum ActionType {
    Close,
    Start,
}

/// An action name that is neither `close` nor `start`, whatever its case.
#[derive(Debug)]
pub struct UnknownAction {
    /// The name as it was written.
    pub name: String,
}

/// The action that a name denotes once it is in lower case.
pub open spec fn action_named(lower: Seq<char>) -> Option<ActionType> {
    if lower == "close"@ {
        Some(ActionType::Close)
    } else if lower == "start"@ {
        Some(ActionType::Start)
    } else {
        None
    }
}

/// Exactly two names denote actions, `close` and `start`, each its own.
pub proof fn lemma_action_spellings(lower: Seq<char>)
    ensures
        action_named("close"@) == Some(ActionType::Close),
        action_named("start"@) == Some(ActionType::Start),
        action_named(lower) is Some ==> lower == "close"@ || lower == "start"@,
{
    reveal_strlit("close");
    reveal_strlit("start");
    assert("close"@[0] != "start"@[0]);
}

/// The lower-case form of a string, as `str::to_lowercase` computes it.
pub uninterp spec fn lowercase(s: Seq<char>) -> Seq<char>;

/// Calls `str::to_lowercase`, which maps each character to its Unicode
/// lower-case form. The contract claims that the result is a function of the
/// string alone, named `lowercase`; it states nothing more of the mapping.
#[verifier::external_body]
fn to_lowercase(s: &str) -> (r: String)
    ensures
        r@ == lowercase(s@),
{
    s.to_lowercase()
}

/// Compares a string with a literal by their characters.
fn same_text(s: &str, literal: &str) -> (r: bool)
    ensures
        r == (s@ == literal@),
{
    let a = String::from_str(s);
    let b = String::from_str(literal);
    a == b
}

/// The action that a lower-case name denotes: `close` or `start`.
pub fn action_from_lowercase(lower: &str) -> (r: Option<ActionType>)
    ensures
        r == action_named(lower@),
{
    if same_text(lower, "close") {
        Some(ActionType::Close)
    } else if same_text(lower, "start") {
        Some(ActionType::Start)
    } else {
        None
    }
}

impl ActionType {
    /// Reads an action name, ignoring its case: `close` or `start`.
    pub fn from_name(name: &str) -> (r: Result<ActionType, UnknownAction>)
        ensures
            r matches Ok(a) ==> action_named(lowercase(name@)) == Some(a),
            r is Err <==> action_named(lowercase(name@)) is None,
            r matches Err(e) ==> e.name@ == name@,
    {
        let lower = to_lowercase(name);
        match action_from_lowercase(lower.as_str()) {
            Some(a) => Ok(a),
            None => Err(UnknownAction { name: String::from_str(name) }),
        }
    }
}

/// `name` names entry `i` of a table of actions.
pub open spec fn names_entry(entries: Seq<(String, ActionType)>, name: Seq<char>, i: int) -> bool {
    0 <= i < entries.len() && entries[i].0@ == name
}

/// No program is named twice in a table of actions.
pub open spec fn names_distinct(entries: Seq<(String, ActionType)>) -> bool {
    forall|i: int, j: int|
        0 <= i < j < entries.len() ==> #[trigger] entries[i].0@ != #[trigger] entries[j].0@
}

/// A table of actions as a map from program name to action.
pub open spec fn table_map(entries: Seq<(String, ActionType)>) -> Map<Seq<char>, ActionType> {
    Map::new(
        |name: Seq<char>| exists|i: int| names_entry(entries, name, i),
        |name: Seq<char>| entries[choose|i: int| names_entry(entries, name, i)].1,
    )
}

/// The programs to act on when a watched process starts, each with its
/// action, in the order they were given; no program is named twice.
#[derive(Debug)]
pub struct ActionTable {
    entries: Vec<(String, ActionType)>,
}

impl View for ActionTable {
    type V = Seq<(String, ActionType)>;

    closed spec fn view(&self) -> Seq<(String, ActionType)> {
        self.entries@
    }
}

impl Clone for ActionTable {
    fn clone(&self) -> (r: Self)
        ensures
            r@ == self@,
    {
        proof {
            use_type_invariant(self);
        }
        let mut entries: Vec<(String, ActionType)> = Vec::new();
        let mut i: usize = 0;
        while i < self.entries.len()
            invariant
                0 <= i <= self.entries@.len(),
                entries@ == self.entries@.take(i as int),
            decreases self.entries@.len() - i,
        {
            entries.push((self.entries[i].0.clone(), self.entries[i].1));
            i = i + 1;
        }
        assert(entries@ == self.entries@.take(self.entries@.len() as int));
        ActionTable { entries }
    }
}

impl ActionTable {
    #[verifier::type_invariant]
    spec fn inv(self) -> bool {
        names_distinct(self.entries@)
    }

    /// The empty table.
    pub fn new() -> (r: ActionTable)
        ensures
            r@.len() == 0,
            table_map(r@) == Map::<Seq<char>, ActionType>::empty(),
    {
        let r = ActionTable { entries: Vec::new() };
        assert(table_map(r@) =~= Map::<Seq<char>, ActionType>::empty());
        r
    }

    /// The entries, in order; no program is named twice.
    pub fn entries(&self) -> (r: &Vec<(String, ActionType)>)
        ensures
            r@ == self@,
            names_distinct(self@),
    {
        proof {
            use_type_invariant(self);
        }
        &self.entries
    }

    /// The number of entries.
    pub fn len(&self) -> (r: usize)
        ensures
            r == self@.len(),
    {
        self.entries.len()
    }

    /// Sets the action for a program: it replaces the action already given
    /// to that name, or adds the name at the end.
    pub fn insert(&mut self, name: String, action: ActionType)
        ensures
            names_distinct(final(self)@),
            table_map(final(self)@) == table_map(old(self)@).insert(name@, action),
            table_map(old(self)@).dom().contains(name@) ==> exists|j: int|
                names_entry(old(self)@, name@, j) && final(self)@ == old(self)@.update(
                    j,
                    (name, action),
                ),
            !table_map(old(self)@).dom().contains(name@) ==> final(self)@ == old(self)@.push(
                (name, action),
            ),
            exists|j: int|
                0 <= j < final(self)@.len() && final(self)@[j].0@ == name@ && final(self)@[j].1
                    == action,
            final(self)@.len() == old(self)@.len() || final(self)@.len() == old(self)@.len() + 1,
            forall|k: int|
                0 <= k < old(self)@.len() && old(self)@[k].0@ != name@ ==> #[trigger] final(self)@[k]
                    == old(self)@[k],
    {
        proof {
            use_type_invariant(&*self);
        }
        let mut entries: Vec<(String, ActionType)> = Vec::new();
        std::mem::swap(&mut entries, &mut self.entries);
        let ghost pre = entries@;
        let mut j: usize = 0;
        while j < entries.len()
            invariant
                entries@ == pre,
                0 <= j <= pre.len(),
                forall|k: int| 0 <= k < j ==> #[trigger] pre[k].0@ != name@,
            ensures
                entries@ == pre,
                0 <= j <= pre.len(),
                forall|k: int| 0 <= k < j ==> #[trigger] pre[k].0@ != name@,
                j < pre.len() ==> pre[j as int].0@ == name@,
            decreases pre.len() - j,
        {
            if entries[j].0 == name {
                break;
            }
            j = j + 1;
        }
        if j < entries.len() {
            assert(names_entry(pre, name@, j as int));
            entries.set(j, (name, action));
        } else {
            entries.push((name, action));
        }
        let ghost post = entries@;
        assert(names_distinct(post)) by {
            assert forall|a: int, b: int| 0 <= a < b < post.len() implies #[trigger] post[a].0@
                != #[trigger] post[b].0@ by {
                if a != j && b != j {
                    assert(pre[a] == post[a]);
                    assert(pre[b] == post[b]);
                } else if a == j {
                    assert(pre[b] == post[b]);
                } else {
                    assert(pre[a] == post[a]);
                }
            }
        }
        assert forall|k: Seq<char>| #[trigger] table_map(pre).insert(name@, action).dom().contains(k)
            implies table_map(post).dom().contains(k) by {
            if k == name@ {
                assert(names_entry(post, k, j as int));
            } else {
                let i = choose|i: int| names_entry(pre, k, i);
                assert(names_entry(post, k, i));
            }
        }
        assert forall|k: Seq<char>| #[trigger] table_map(post).dom().contains(k)
            implies table_map(pre).insert(name@, action).dom().contains(k) by {
            if k != name@ {
                let i = choose|i: int| names_entry(post, k, i);
                assert(i != j);
                assert(names_entry(pre, k, i));
            }
        }
        assert forall|k: Seq<char>| #[trigger] table_map(post).dom().contains(k)
            implies table_map(post)[k] == table_map(pre).insert(name@, action)[k] by {
            let i = choose|i: int| names_entry(post, k, i);
            if k == name@ {
                assert(names_entry(post, k, j as int));
                assert(i == j);
            } else {
                let i0 = choose|i: int| names_entry(pre, k, i);
                assert(names_entry(post, k, i0));
                assert(i == i0);
            }
        }
        assert(table_map(post) =~= table_map(pre).insert(name@, action));
        proof {
            if !table_map(pre).dom().contains(name@) {
                if j < pre.len() {
                    assert(names_entry(pre, name@, j as int));
                }
            }
        }
        assert(names_entry(post, name@, j as int));
        self.entries = entries;
    }
}

/// One watched process.
#[derive(Debug, Clone)]
pub struct ProcessConfig {
    /// The name of the process to watch.
    pub monitored: String,
    /// The programs to act on when it starts.
    pub action: ActionTable,
    /// Seconds between two checks.
    pub check_interval: u64,
}

impl ProcessConfig {
    /// A watched process with no actions yet.
    pub fn new(monitored: String, check_interval: u64) -> (r: ProcessConfig)
        ensures
            r.monitored@ == monitored@,
            r.check_interval == check_interval,
            r.action@.len() == 0,
    {
        ProcessConfig { monitored, action: ActionTable::new(), check_interval }
    }
}

/// The watched processes.
#[derive(Debug)]
pub struct MonitorConfig {
    pub process: Vec<ProcessConfig>,
}

/// The whole configuration file.
#[derive(Debug)]
pub struct ProcessMonitored {
    pub monitor: MonitorConfig,
}

/// Seconds between two rounds when no process is watched.
pub open spec fn default_check_interval() -> u64 {
    10
}

impl MonitorConfig {
    /// The seconds between two rounds: the smallest check interval of the
    /// watched processes, or 10 when none is watched.
    pub fn min_check_interval(&self) -> (r: u64)
        ensures
            self.process@.len() == 0 ==> r == default_check_interval(),
            self.process@.len() > 0 ==> exists|i: int|
                0 <= i < self.process@.len() && r == #[trigger] self.process@[i].check_interval,
            forall|i: int|
                0 <= i < self.process@.len() ==> r <= #[trigger] self.process@[i].check_interval,
    {
        if self.process.len() == 0 {
            return 10;
        }
        let mut best: u64 = self.process[0].check_interval;
        let ghost mut at: int = 0;
        let mut i: usize = 1;
        while i < self.process.len()
            invariant
                1 <= i <= self.process@.len(),
                0 <= at < i,
                best == self.process@[at].check_interval,
                forall|k: int| 0 <= k < i ==> best <= #[trigger] self.process@[k].check_interval,
            decreases self.process@.len() - i,
        {
            if self.process[i].check_interval < best {
                best = self.process[i].check_interval;
                proof {
                    at = i as int;
                }
            }
            i = i + 1;
        }
        best
    }
}

/// Where the configuration file is read from.
#[derive(Debug, Clone, Copy, PartialEq, Eq, Structural)]
pub enum ConfigLocation {
    /// `configure/config.toml` under the working directory.
    WorkingDirectory,
    /// `configure/config.toml` beside the executable.
    ExecutableDirectory,
}

/// Chooses the configuration file: the one under the working directory if it
/// exists; else the one beside the executable if that one exists
/// (`in_exe_dir` is `None` when the executable's directory is unknown);
/// else the one under the working directory, whose reading will then fail.
pub fn config_location(in_working_dir: bool, in_exe_dir: Option<bool>) -> (r: ConfigLocation)
    ensures
        r == (if !in_working_dir && in_exe_dir == Some(true) {
            ConfigLocation::ExecutableDirectory
        } else {
            ConfigLocation::WorkingDirectory
        }),
{
    if in_working_dir {
        ConfigLocation::WorkingDirectory
    } else {
        match in_exe_dir {
            Some(true) => ConfigLocation::ExecutableDirectory,
            _ => ConfigLocation::WorkingDirectory,
        }
    }
}

} // verus!
