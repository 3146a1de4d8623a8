//! Inheritance: working directory, automation rules and environment flow
//! from a group down to what it holds.
//!
//! Whether a directory exists, and what its canonical form is, is read from
//! a [`PathTable`] that the caller fills by asking the file system. Where the
//! table does not know a path, inheritance stops and names it.

use vstd::prelude::*;
use vstd::string::*;
use crate::commands::auto::{clone_strings, strs, Auto, AutoView};
use crate::commands::command::{commands_view, Command, CommandView};
use crate::commands::env::{clone_env, env_merged, env_view, merge_env, EnvView};
use crate::commands::group::{groups_view, lemma_group_view, CommandGroup, GroupView};
use crate::config_file::{ConfigError, ConfigErrorView};
use crate::path::{absolute, inherit_path, inherited_path, is_absolute};

verus! {

/// Mathematical model of a [`PathTable`]: paths and what is known of each.
pub type TableView = Seq<(Seq<char>, Option<Seq<char>>)>;

/// What a table knows of a path.
pub enum Lookup {
    /// The table has no entry for the path.
    Unknown,
    /// The path does not exist.
    Missing,
    /// The path exists, and this is its canonical form.
    Found(Seq<char>),
}

/// The index of the first entry for `path`, or the table's length.
pub open spec fn table_position(table: TableView, path: Seq<char>) -> int
    decreases table.len(),
{
    if table.len() == 0 {
        0
    } else if table[0].0 == path {
        0
    } else {
        1 + table_position(table.drop_first(), path)
    }
}

/// What `table` knows of `path`: what its first entry for the path says.
pub open spec fn lookup(table: TableView, path: Seq<char>) -> Lookup {
    let at = table_position(table, path);
    if at >= table.len() {
        Lookup::Unknown
    } else {
        match table[at].1 {
            Some(c) => Lookup::Found(c),
            None => Lookup::Missing,
        }
    }
}

/// Every canonical form that the table records is an absolute path.
pub open spec fn table_absolute(table: TableView) -> bool {
    forall|i: int|
        0 <= i < table.len() ==> ((#[trigger] table[i]).1 matches Some(c) ==> absolute(c))
}

/// Every canonical form that the table records resolves to itself.
pub open spec fn table_fixed(table: TableView) -> bool {
    forall|asked: Seq<char>|
        (#[trigger] lookup(table, asked)) matches Lookup::Found(c) ==> lookup(table, c)
            == Lookup::Found(c)
}

/// What holds of every table: canonical forms are absolute paths and
/// resolve to themselves.
pub open spec fn table_sound(table: TableView) -> bool {
    table_absolute(table) && table_fixed(table)
}

/// What is known of the file system: for each path that was asked for,
/// its canonical form, or that it does not exist. Every table is sound:
/// the canonical forms in it are absolute and resolve to themselves.
#[derive(Debug)]
pub struct PathTable {
    entries: Vec<(String, Option<String>)>,
}

/// The model of an optional path.
pub open spec fn path_view(p: Option<String>) -> Option<Seq<char>> {
    match p {
        Some(c) => Some(c@),
        None => None,
    }
}

impl View for PathTable {
    type V = TableView;

    closed spec fn view(&self) -> TableView {
        entries_view(self.entries@)
    }
}

/// The model of a list of entries.
pub open spec fn entries_view(entries: Seq<(String, Option<String>)>) -> TableView {
    Seq::new(entries.len(), |i: int| (entries[i].0@, path_view(entries[i].1)))
}

/// What a lookup gave, in executable form.
#[derive(Debug)]
pub enum Resolved {
    Unknown,
    Missing,
    Found(String),
}

impl View for Resolved {
    type V = Lookup;

    open spec fn view(&self) -> Lookup {
        match self {
            Resolved::Unknown => Lookup::Unknown,
            Resolved::Missing => Lookup::Missing,
            Resolved::Found(c) => Lookup::Found(c@),
        }
    }
}

/// What a table finds for a path once one more entry stands at its end:
/// what it found before, and the new entry where it knew nothing of the
/// path and the entry is for it.
pub proof fn lemma_lookup_push(
    table: TableView,
    entry: (Seq<char>, Option<Seq<char>>),
    asked: Seq<char>,
)
    ensures
        table_position(table.push(entry), asked) == if table_position(table, asked)
            < table.len() {
            table_position(table, asked)
        } else if entry.0 == asked {
            table.len() as int
        } else {
            table.len() as int + 1
        },
        0 <= table_position(table, asked) <= table.len(),
        lookup(table.push(entry), asked) == if !(lookup(table, asked) is Unknown) {
            lookup(table, asked)
        } else if entry.0 == asked {
            match entry.1 {
                Some(c) => Lookup::Found(c),
                None => Lookup::Missing,
            }
        } else {
            Lookup::Unknown
        },
    decreases table.len(),
{
    let next = table.push(entry);
    if table.len() == 0 {
        assert(next[0] == entry);
        assert(next.drop_first() =~= Seq::<(Seq<char>, Option<Seq<char>>)>::empty());
        assert(table_position(next.drop_first(), asked) == 0);
    } else {
        assert(next[0] == table[0]);
        if table[0].0 != asked {
            let rest = table.drop_first();
            lemma_lookup_push(rest, entry, asked);
            assert(next.drop_first() =~= rest.push(entry));
            assert(table_position(table, asked) == 1 + table_position(rest, asked));
            assert(table_position(next, asked) == 1 + table_position(rest.push(entry), asked));
        }
    }
    let at = table_position(table, asked);
    if at < table.len() {
        assert(next[at] == table[at]);
    } else if entry.0 == asked {
        assert(next[table.len() as int] == entry);
    }
}

/// Whether a canonical form may be recorded: it is an absolute path, and
/// the table knows nothing of it or knows it as its own canonical form.
pub open spec fn admissible(table: TableView, canonical: Option<Seq<char>>) -> bool {
    match canonical {
        None => true,
        Some(c) => absolute(c) && (lookup(table, c) is Unknown || lookup(table, c)
            == Lookup::Found(c)),
    }
}

/// The table after `path` was recorded: an entry that says that the path
/// does not exist, or one that gives its canonical form and one that says
/// that this form is its own. What is not admissible leaves the table as
/// it is.
pub open spec fn recorded(
    table: TableView,
    path: Seq<char>,
    canonical: Option<Seq<char>>,
) -> TableView {
    match canonical {
        None => table.push((path, None)),
        Some(c) => if admissible(table, canonical) {
            table.push((path, Some(c))).push((c, Some(c)))
        } else {
            table
        },
    }
}

/// Recording keeps a table sound.
pub proof fn lemma_recorded_sound(table: TableView, path: Seq<char>, canonical: Option<Seq<char>>)
    requires
        table_sound(table),
    ensures
        table_sound(recorded(table, path, canonical)),
{
    let next = recorded(table, path, canonical);
    match canonical {
        None => {
            assert forall|asked: Seq<char>| (#[trigger] lookup(next, asked)) is Found implies lookup(
                next,
                lookup(next, asked)->Found_0,
            ) == Lookup::Found(lookup(next, asked)->Found_0) by {
                lemma_lookup_push(table, (path, None), asked);
                let c = lookup(next, asked)->Found_0;
                assert(lookup(table, asked) == Lookup::Found(c));
                lemma_lookup_push(table, (path, None), c);
            }
            assert forall|i: int| 0 <= i < next.len() implies ((#[trigger] next[i]).1 matches Some(
                c,
            ) ==> absolute(c)) by {
                if i < table.len() {
                    assert(next[i] == table[i]);
                }
            }
        },
        Some(c) => {
            if admissible(table, canonical) {
                let mid = table.push((path, Some(c)));
                assert forall|asked: Seq<char>|
                    (#[trigger] lookup(next, asked)) is Found implies lookup(
                    next,
                    lookup(next, asked)->Found_0,
                ) == Lookup::Found(lookup(next, asked)->Found_0) by {
                    lemma_lookup_push(table, (path, Some(c)), asked);
                    lemma_lookup_push(mid, (c, Some(c)), asked);
                    let x = lookup(next, asked)->Found_0;
                    lemma_lookup_push(table, (path, Some(c)), x);
                    lemma_lookup_push(mid, (c, Some(c)), x);
                    lemma_lookup_push(table, (path, Some(c)), c);
                    lemma_lookup_push(mid, (c, Some(c)), c);
                    if !(lookup(table, asked) is Unknown) {
                        assert(lookup(table, asked) == Lookup::Found(x));
                        assert(lookup(table, x) == Lookup::Found(x));
                    }
                }
                assert forall|i: int| 0 <= i < next.len() implies ((#[trigger] next[i]).1 matches Some(
                    d,
                ) ==> absolute(d)) by {
                    if i < table.len() {
                        assert(next[i] == table[i]);
                    }
                }
            }
        },
    }
}

fn copy_entries(v: &Vec<(String, Option<String>)>) -> (r: Vec<(String, Option<String>)>)
    ensures
        r@.len() == v@.len(),
        forall|i: int|
            0 <= i < v@.len() ==> (#[trigger] r@[i]).0@ == v@[i].0@ && path_view(r@[i].1)
                == path_view(v@[i].1),
{
    let mut r: Vec<(String, Option<String>)> = Vec::new();
    let mut i: usize = 0;
    while i < v.len()
        invariant
            i <= v.len(),
            r@.len() == i,
            forall|j: int|
                0 <= j < i ==> (#[trigger] r@[j]).0@ == v@[j].0@ && path_view(r@[j].1) == path_view(
                    v@[j].1,
                ),
        decreases v.len() - i,
    {
        let form = match &v[i].1 {
            Some(c) => Some(c.clone()),
            None => None,
        };
        r.push((v[i].0.clone(), form));
        i += 1;
    }
    r
}

impl PathTable {
    #[verifier::type_invariant]
    spec fn inv(self) -> bool {
        table_sound(self@)
    }

    /// A table that knows nothing.
    pub fn new() -> (r: Self)
        ensures
            r@ == Seq::<(Seq<char>, Option<Seq<char>>)>::empty(),
    {
        let entries: Vec<(String, Option<String>)> = Vec::new();
        assert(entries_view(entries@) =~= Seq::<(Seq<char>, Option<Seq<char>>)>::empty());
        PathTable { entries }
    }

    /// Calls to mind what holds of every table.
    pub fn sound(&self)
        ensures
            table_sound(self@),
    {
        proof {
            use_type_invariant(self);
        }
    }

    /// Records what the file system said of `path`: that it does not exist,
    /// or its canonical form. An earlier entry for the same path stays in
    /// force. A canonical form that is not absolute, or that the table
    /// knows as missing or as another path's other name, is refused: the
    /// table stays as it is, and the result says so.
    pub fn record(&mut self, path: String, canonical: Option<String>) -> (kept: bool)
        ensures
            kept == admissible(old(self)@, path_view(canonical)),
            final(self)@ == recorded(old(self)@, path@, path_view(canonical)),
    {
        let ghost before = self@;
        proof {
            use_type_invariant(&*self);
            lemma_recorded_sound(before, path@, path_view(canonical));
        }
        match canonical {
            None => {
                let mut entries = copy_entries(&self.entries);
                entries.push((path, None));
                assert(entries_view(entries@) =~= recorded(before, path@, None));
                *self = PathTable { entries };
                true
            },
            Some(c) => {
                let fits = is_absolute(c.as_str()) && match self.resolve(&c) {
                    Resolved::Unknown => true,
                    Resolved::Found(d) => d.eq(&c),
                    Resolved::Missing => false,
                };
                if !fits {
                    return false;
                }
                let mut entries = copy_entries(&self.entries);
                let ghost form = c@;
                entries.push((path, Some(c.clone())));
                entries.push((c.clone(), Some(c)));
                assert(entries_view(entries@) =~= recorded(before, path@, Some(form)));
                *self = PathTable { entries };
                true
            },
        }
    }

    /// What the table knows of `path`.
    pub fn resolve(&self, path: &String) -> (r: Resolved)
        ensures
            r@ == lookup(self@, path@),
    {
        let ghost table = self@;
        let mut i: usize = 0;
        assert(table.skip(0) =~= table);
        while i < self.entries.len()
            invariant
                i <= self.entries.len(),
                table == self@,
                table_position(table, path@) == i + table_position(table.skip(i as int), path@),
            decreases self.entries.len() - i,
        {
            proof {
                let rest = table.skip(i as int);
                assert(rest.len() > 0);
                assert(rest[0] == table[i as int]);
                assert(table[i as int].0 == self.entries@[i as int].0@);
                assert(rest.drop_first() =~= table.skip(i + 1));
            }
            if self.entries[i].0.eq(path) {
                return match &self.entries[i].1 {
                    Some(c) => Resolved::Found(c.clone()),
                    None => Resolved::Missing,
                };
            }
            i += 1;
        }
        assert(table.skip(i as int).len() == 0);
        Resolved::Unknown
    }
}

/// Mathematical model of [`Inheritance`].
pub struct FrameView {
    pub cwd: Seq<char>,
    pub auto: AutoView,
    pub entry_path: Seq<Seq<char>>,
    pub env: EnvView,
}

/// What a node hands down: working directory, rules, the names of the nodes
/// on the way here, and environment.
#[derive(Debug)]
pub struct Inheritance {
    pub cwd: String,
    pub auto: Auto,
    pub entry_path: Vec<String>,
    pub env: Vec<(String, String)>,
}

impl View for Inheritance {
    type V = FrameView;

    open spec fn view(&self) -> FrameView {
        FrameView {
            cwd: self.cwd@,
            auto: self.auto@,
            entry_path: strs(self.entry_path@),
            env: env_view(self.env@),
        }
    }
}

/// The frame at the root: a working directory and nothing else.
pub open spec fn root_frame(cwd: Seq<char>) -> FrameView {
    FrameView {
        cwd,
        auto: AutoView {
            watch: None,
            git: None,
            path: Seq::empty(),
            regex: Seq::empty(),
            always: None,
        },
        entry_path: Seq::empty(),
        env: Seq::empty(),
    }
}

impl Inheritance {
    /// The frame at the root of a tree that lives in `cwd`.
    pub fn from(cwd: String) -> (r: Self)
        ensures
            r@ == root_frame(cwd@),
    {
        let r = Inheritance {
            cwd,
            auto: Auto::default(),
            entry_path: Vec::new(),
            env: Vec::new(),
        };
        assert(strs(r.entry_path@) =~= Seq::<Seq<char>>::empty());
        assert(env_view(r.env@) =~= Seq::empty());
        r
    }
}

impl Default for Inheritance {
    fn default() -> (r: Self)
        ensures
            r@ == root_frame(Seq::empty()),
    {
        Inheritance::from(String::new())
    }
}

impl Clone for Inheritance {
    fn clone(&self) -> (r: Self)
        ensures
            r@ == self@,
    {
        Inheritance {
            cwd: self.cwd.clone(),
            auto: self.auto.clone(),
            entry_path: clone_strings(&self.entry_path),
            env: clone_env(&self.env),
        }
    }
}

/// Why inheritance stopped. The model of [`InheritError`].
pub enum StopView {
    /// The table knows nothing of this path: ask, record, and come again.
    Unresolved(Seq<char>),
    /// The configuration is at fault.
    Failed(ConfigErrorView),
}

/// Why inheritance stopped.
#[derive(Debug)]
pub enum InheritError {
    /// The table knows nothing of this path: ask the file system, record the
    /// answer and run inheritance again.
    Unresolved(String),
    /// The configuration is at fault.
    Failed(ConfigError),
}

impl View for InheritError {
    type V = StopView;

    open spec fn view(&self) -> StopView {
        match self {
            InheritError::Unresolved(p) => StopView::Unresolved(p@),
            InheritError::Failed(e) => StopView::Failed(e@),
        }
    }
}

/// The first of two optional switches that is set.
pub open spec fn or_else(own: Option<bool>, parent: Option<bool>) -> Option<bool> {
    match own {
        Some(_) => own,
        None => parent,
    }
}

/// A node's rules over its parent's: each switch, and each list, is the
/// node's own where it has one and the parent's otherwise.
pub open spec fn merged_auto(own: AutoView, parent: AutoView) -> AutoView {
    AutoView {
        watch: or_else(own.watch, parent.watch),
        git: or_else(own.git, parent.git),
        path: if own.path.len() == 0 {
            parent.path
        } else {
            own.path
        },
        regex: if own.regex.len() == 0 {
            parent.regex
        } else {
            own.regex
        },
        always: or_else(own.always, parent.always),
    }
}

/// The frame of a node under `frame`, before any path is resolved.
pub open spec fn common_frame(
    name: Seq<char>,
    cwd: Seq<char>,
    auto: AutoView,
    env: EnvView,
    frame: FrameView,
) -> FrameView {
    FrameView {
        cwd: inherited_path(frame.cwd, cwd),
        auto: merged_auto(auto, frame.auto),
        entry_path: frame.entry_path.push(name),
        env: env_merged(frame.env, env),
    }
}

/// The names of the nodes on the way to a node, joined by dots.
pub open spec fn dotted(entry_path: Seq<Seq<char>>) -> Seq<char>
    decreases entry_path.len(),
{
    if entry_path.len() == 0 {
        Seq::empty()
    } else if entry_path.len() == 1 {
        entry_path[0]
    } else {
        dotted(entry_path.drop_last()).push('.') + entry_path.last()
    }
}

/// The stop owed for one lookup that did not find a directory.
pub open spec fn stop_for(seen: Lookup, asked: Seq<char>, frame: FrameView) -> StopView {
    match seen {
        Lookup::Unknown => StopView::Unresolved(asked),
        _ => StopView::Failed(
            ConfigErrorView::DirectoryNotFound {
                entry: dotted(frame.entry_path),
                path: frame.cwd,
            },
        ),
    }
}

/// The canonical forms of `paths`, each taken relative to the frame's
/// working directory; stops at the first that is unknown or missing.
pub open spec fn resolved_paths(
    paths: Seq<Seq<char>>,
    frame: FrameView,
    table: TableView,
) -> Result<Seq<Seq<char>>, StopView>
    decreases paths.len(),
{
    if paths.len() == 0 {
        Ok(Seq::empty())
    } else {
        match resolved_paths(paths.drop_last(), frame, table) {
            Err(stop) => Err(stop),
            Ok(done) => {
                let asked = inherited_path(frame.cwd, paths.last());
                match lookup(table, asked) {
                    Lookup::Found(c) => Ok(done.push(c)),
                    other => Err(stop_for(other, asked, frame)),
                }
            },
        }
    }
}

/// The path that stands for the directory of the process itself.
pub open spec fn here() -> Seq<char> {
    "."@
}

/// The path that is asked of the table for a working directory: the
/// directory itself, and the directory of the process where none is named.
pub open spec fn asked_dir(cwd: Seq<char>) -> Seq<char> {
    if cwd.len() == 0 {
        here()
    } else {
        cwd
    }
}

/// The frame with its paths resolved: the working directory is replaced by
/// its canonical form, and so is every watched path, taken relative to that
/// directory. A frame that names no working directory gets the directory
/// of the process.
pub open spec fn canonical_frame(frame: FrameView, table: TableView) -> Result<
    FrameView,
    StopView,
> {
    match lookup(table, asked_dir(frame.cwd)) {
        Lookup::Found(cwd) => match resolved_paths(
            frame.auto.path,
            FrameView { cwd, ..frame },
            table,
        ) {
            Ok(paths) => Ok(
                FrameView {
                    cwd,
                    auto: AutoView { path: paths, ..frame.auto },
                    ..frame
                },
            ),
            Err(stop) => Err(stop),
        },
        other => Err(stop_for(other, asked_dir(frame.cwd), frame)),
    }
}

/// The frame in which a node's rules are settled. The frame's rules count
/// only where one of its switches is on; rules that name no path watch the
/// working directory.
pub open spec fn auto_frame(auto: AutoView, frame: FrameView) -> FrameView {
    let base = if frame.auto.enabled() {
        merged_auto(auto, frame.auto)
    } else {
        auto
    };
    let settled = if base.path.len() == 0 {
        AutoView { path: seq![frame.cwd], ..base }
    } else {
        base
    };
    FrameView {
        cwd: frame.cwd,
        auto: settled,
        entry_path: frame.entry_path.push("auto"@),
        env: frame.env,
    }
}

/// A node's rules after inheritance under `frame`.
pub open spec fn auto_inherited(auto: AutoView, frame: FrameView, table: TableView) -> Result<
    AutoView,
    StopView,
> {
    match canonical_frame(auto_frame(auto, frame), table) {
        Ok(f) => Ok(f.auto),
        Err(stop) => Err(stop),
    }
}

/// A command after inheritance under `frame`.
pub open spec fn command_inherited(c: CommandView, frame: FrameView, table: TableView) -> Result<
    CommandView,
    StopView,
> {
    match canonical_frame(common_frame(c.name, c.cwd, c.auto, c.env, frame), table) {
        Err(stop) => Err(stop),
        Ok(f) => match auto_inherited(c.auto, f, table) {
            Err(stop) => Err(stop),
            Ok(auto) => Ok(CommandView { cwd: f.cwd, env: f.env, auto, ..c }),
        },
    }
}

/// A list of commands after inheritance under `frame`; stops at the first
/// command that stops.
pub open spec fn commands_inherited(
    cs: Seq<CommandView>,
    frame: FrameView,
    table: TableView,
) -> Result<Seq<CommandView>, StopView>
    decreases cs.len(),
{
    if cs.len() == 0 {
        Ok(Seq::empty())
    } else {
        match commands_inherited(cs.drop_last(), frame, table) {
            Err(stop) => Err(stop),
            Ok(done) => match command_inherited(cs.last(), frame, table) {
                Err(stop) => Err(stop),
                Ok(c) => Ok(done.push(c)),
            },
        }
    }
}

/// A group after inheritance under `frame`: the group itself, then its
/// commands, then its child groups, each under the group's own frame.
pub open spec fn group_inherited(g: GroupView, frame: FrameView, table: TableView) -> Result<
    GroupView,
    StopView,
>
    decreases g, 1int,
{
    match canonical_frame(common_frame(g.name, g.cwd, g.auto, g.env, frame), table) {
        Err(stop) => Err(stop),
        Ok(f) => match auto_inherited(g.auto, f, table) {
            Err(stop) => Err(stop),
            Ok(auto) => match commands_inherited(g.commands, f, table) {
                Err(stop) => Err(stop),
                Ok(commands) => match groups_inherited(g.children, f, table) {
                    Err(stop) => Err(stop),
                    Ok(children) => Ok(
                        GroupView { cwd: f.cwd, env: f.env, auto, commands, children, ..g },
                    ),
                },
            },
        },
    }
}

/// A list of groups after inheritance under `frame`; stops at the first
/// group that stops.
pub open spec fn groups_inherited(gs: Seq<GroupView>, frame: FrameView, table: TableView) -> Result<
    Seq<GroupView>,
    StopView,
>
    decreases gs, 0int,
{
    if gs.len() == 0 {
        Ok(Seq::empty())
    } else {
        match groups_inherited(gs.drop_last(), frame, table) {
            Err(stop) => Err(stop),
            Ok(done) => match group_inherited(gs.last(), frame, table) {
                Err(stop) => Err(stop),
                Ok(g) => Ok(done.push(g)),
            },
        }
    }
}

fn pick(own: Option<bool>, parent: Option<bool>) -> (r: Option<bool>)
    ensures
        r == or_else(own, parent),
{
    match own {
        Some(_) => own,
        None => parent,
    }
}

fn is_on(switch: Option<bool>) -> (r: bool)
    ensures
        r == (switch == Some(true)),
{
    match switch {
        Some(b) => b,
        None => false,
    }
}

impl Auto {
    /// These rules over `other`'s: each switch and each list is taken from
    /// here where it is set, and from `other` where it is not.
    pub fn merge(&self, other: &Auto) -> (r: Auto)
        ensures
            r@ == merged_auto(self@, other@),
    {
        let path = if self.path.len() == 0 {
            clone_strings(&other.path)
        } else {
            clone_strings(&self.path)
        };
        let regex = if self.regex.len() == 0 {
            clone_strings(&other.regex)
        } else {
            clone_strings(&self.regex)
        };
        Auto {
            watch: pick(self.watch, other.watch),
            git: pick(self.git, other.git),
            path,
            regex,
            always: pick(self.always, other.always),
        }
    }

    /// The frame in which these rules are settled under `inheritance`.
    pub fn calculate_inheritance(&self, inheritance: &Inheritance) -> (r: Inheritance)
        ensures
            r@ == auto_frame(self@, inheritance@),
    {
        let mut auto = if is_on(inheritance.auto.watch) || is_on(inheritance.auto.git) || is_on(
            inheritance.auto.always,
        ) {
            self.merge(&inheritance.auto)
        } else {
            self.clone()
        };
        if auto.path.len() == 0 {
            let ghost before = auto@;
            auto.path.push(inheritance.cwd.clone());
            assert(auto@.path =~= seq![inheritance@.cwd]);
            assert(auto@ == (AutoView { path: seq![inheritance@.cwd], ..before }));
        }
        let mut entry_path = clone_strings(&inheritance.entry_path);
        let ghost names = strs(entry_path@);
        entry_path.push(String::from_str("auto"));
        assert(strs(entry_path@) =~= names.push("auto"@));
        Inheritance {
            cwd: inheritance.cwd.clone(),
            auto,
            entry_path,
            env: clone_env(&inheritance.env),
        }
    }

    /// Settles these rules under `inheritance`, resolving every watched path
    /// through `table`. On a stop the rules are left as they were.
    pub fn inherit(&mut self, inheritance: &Inheritance, table: &PathTable) -> (r: Result<
        (),
        InheritError,
    >)
        ensures
            match r {
                Ok(_) => auto_inherited(old(self)@, inheritance@, table@) == Ok::<
                    AutoView,
                    StopView,
                >(final(self)@),
                Err(e) => auto_inherited(old(self)@, inheritance@, table@) == Err::<
                    AutoView,
                    StopView,
                >(e@) && final(self)@ == old(self)@,
            },
    {
        match canonicalize(self.calculate_inheritance(inheritance), table) {
            Ok(f) => {
                *self = f.auto;
                Ok(())
            },
            Err(e) => Err(e),
        }
    }
}

/// The names of the nodes on the way to a node, joined by dots.
pub fn join_dotted(entry_path: &Vec<String>) -> (r: String)
    ensures
        r@ == dotted(strs(entry_path@)),
{
    let ghost names = strs(entry_path@);
    let mut out = String::new();
    let mut i: usize = 0;
    assert(names.take(0) =~= Seq::<Seq<char>>::empty());
    while i < entry_path.len()
        invariant
            i <= entry_path.len(),
            names == strs(entry_path@),
            out@ == dotted(names.take(i as int)),
        decreases entry_path.len() - i,
    {
        proof {
            let next = names.take(i + 1);
            assert(next.drop_last() =~= names.take(i as int));
            assert(next.last() == entry_path@[i as int]@);
            if i > 0 {
                assert(dotted(next) == dotted(names.take(i as int)).push('.') + next.last());
            } else {
                assert(dotted(next) == next[0]);
                assert(dotted(names.take(0)) =~= Seq::<char>::empty());
            }
        }
        if i > 0 {
            let ghost before = out@;
            out.append(".");
            proof {
                reveal_strlit(".");
                assert("."@ =~= seq!['.']);
                assert(out@ =~= before.push('.'));
            }
        }
        let ghost before = out@;
        out.append(entry_path[i].as_str());
        assert(out@ =~= dotted(names.take(i + 1)));
        i += 1;
    }
    assert(names.take(i as int) =~= names);
    out
}

fn stop(seen: Resolved, asked: String, frame: &Inheritance) -> (r: InheritError)
    requires
        !(seen@ is Found),
    ensures
        r@ == stop_for(seen@, asked@, frame@),
{
    match seen {
        Resolved::Unknown => InheritError::Unresolved(asked),
        _ => InheritError::Failed(
            ConfigError::DirectoryNotFound {
                entry: join_dotted(&frame.entry_path),
                path: frame.cwd.clone(),
            },
        ),
    }
}

/// Resolves the paths of a frame through `table`.
pub fn canonicalize(frame: Inheritance, table: &PathTable) -> (r: Result<Inheritance, InheritError>)
    ensures
        match r {
            Ok(f) => canonical_frame(frame@, table@) == Ok::<FrameView, StopView>(f@),
            Err(e) => canonical_frame(frame@, table@) == Err::<FrameView, StopView>(e@),
        },
{
    let ghost given = frame@;
    let mut f = frame;
    let asked = if f.cwd.as_str().is_empty() {
        String::from_str(".")
    } else {
        f.cwd.clone()
    };
    match table.resolve(&asked) {
        Resolved::Found(cwd) => {
            f.cwd = cwd;
        },
        other => {
            return Err(stop(other, asked, &f));
        },
    }
    let ghost settled = f@;
    assert(settled == (FrameView { cwd: settled.cwd, ..given }));
    let ghost wanted = f@.auto.path;
    let mut paths: Vec<String> = Vec::new();
    let mut i: usize = 0;
    assert(wanted.take(0) =~= Seq::<Seq<char>>::empty());
    assert(strs(paths@) =~= Seq::<Seq<char>>::empty());
    while i < f.auto.path.len()
        invariant
            i <= f.auto.path.len(),
            given == frame@,
            settled == f@,
            settled == (FrameView { cwd: settled.cwd, ..given }),
            lookup(table@, asked_dir(given.cwd)) == Lookup::Found(settled.cwd),
            wanted == f@.auto.path,
            resolved_paths(wanted.take(i as int), settled, table@) == Ok::<
                Seq<Seq<char>>,
                StopView,
            >(strs(paths@)),
        decreases f.auto.path.len() - i,
    {
        proof {
            let next = wanted.take(i + 1);
            assert(next.drop_last() =~= wanted.take(i as int));
            assert(next.last() == f.auto.path@[i as int]@);
            lemma_resolved_prefix(wanted, settled, table@, i + 1);
        }
        let asked = inherit_path(f.cwd.as_str(), f.auto.path[i].clone());
        match table.resolve(&asked) {
            Resolved::Found(c) => {
                let ghost before = strs(paths@);
                paths.push(c);
                assert(strs(paths@) =~= before.push(c@));
            },
            other => {
                let e = stop(other, asked, &f);
                assert(resolved_paths(wanted.take(i + 1), settled, table@) == Err::<
                    Seq<Seq<char>>,
                    StopView,
                >(e@));
                return Err(e);
            },
        }
        i += 1;
    }
    assert(wanted.take(i as int) =~= wanted);
    f.auto.path = paths;
    Ok(f)
}

/// A stop on the way stops the whole list.
pub proof fn lemma_resolved_prefix(
    paths: Seq<Seq<char>>,
    frame: FrameView,
    table: TableView,
    n: int,
)
    requires
        0 <= n <= paths.len(),
    ensures
        resolved_paths(paths.take(n), frame, table) matches Err(stop) ==> resolved_paths(
            paths,
            frame,
            table,
        ) == Err::<Seq<Seq<char>>, StopView>(stop),
    decreases paths.len() - n,
{
    if n < paths.len() {
        let next = paths.take(n + 1);
        assert(next.drop_last() =~= paths.take(n));
        lemma_resolved_prefix(paths, frame, table, n + 1);
    } else {
        assert(paths.take(n) =~= paths);
    }
}

/// The frame of a node under `inheritance`, before any path is resolved.
pub fn calculate_common_inheritance(
    name: &str,
    cwd: &str,
    auto: &Auto,
    env: &Vec<(String, String)>,
    inheritance: &Inheritance,
) -> (r: Inheritance)
    ensures
        r@ == common_frame(name@, cwd@, auto@, env_view(env@), inheritance@),
{
    let mut entry_path = clone_strings(&inheritance.entry_path);
    let ghost names = strs(entry_path@);
    entry_path.push(String::from_str(name));
    assert(strs(entry_path@) =~= names.push(name@));
    Inheritance {
        cwd: inherit_path(inheritance.cwd.as_str(), String::from_str(cwd)),
        auto: auto.merge(&inheritance.auto),
        entry_path,
        env: merge_env(&inheritance.env, env),
    }
}

/// A stop on the way stops the whole list of commands.
pub proof fn lemma_commands_prefix(
    cs: Seq<CommandView>,
    frame: FrameView,
    table: TableView,
    n: int,
)
    requires
        0 <= n <= cs.len(),
    ensures
        commands_inherited(cs.take(n), frame, table) matches Err(stop) ==> commands_inherited(
            cs,
            frame,
            table,
        ) == Err::<Seq<CommandView>, StopView>(stop),
    decreases cs.len() - n,
{
    if n < cs.len() {
        let next = cs.take(n + 1);
        assert(next.drop_last() =~= cs.take(n));
        lemma_commands_prefix(cs, frame, table, n + 1);
    } else {
        assert(cs.take(n) =~= cs);
    }
}

/// A stop on the way stops the whole list of groups.
pub proof fn lemma_groups_prefix(gs: Seq<GroupView>, frame: FrameView, table: TableView, n: int)
    requires
        0 <= n <= gs.len(),
    ensures
        groups_inherited(gs.take(n), frame, table) matches Err(stop) ==> groups_inherited(
            gs,
            frame,
            table,
        ) == Err::<Seq<GroupView>, StopView>(stop),
    decreases gs.len() - n,
{
    if n < gs.len() {
        let next = gs.take(n + 1);
        assert(next.drop_last() =~= gs.take(n));
        lemma_groups_prefix(gs, frame, table, n + 1);
    } else {
        assert(gs.take(n) =~= gs);
    }
}

fn inherited_command(c: &Command, inheritance: &Inheritance, table: &PathTable) -> (r: Result<
    Command,
    InheritError,
>)
    ensures
        match r {
            Ok(done) => command_inherited(c@, inheritance@, table@) == Ok::<
                CommandView,
                StopView,
            >(done@),
            Err(e) => command_inherited(c@, inheritance@, table@) == Err::<
                CommandView,
                StopView,
            >(e@),
        },
{
    let frame = calculate_common_inheritance(
        c.name.as_str(),
        c.cwd.as_str(),
        &c.auto,
        &c.env,
        inheritance,
    );
    match canonicalize(frame, table) {
        Err(e) => Err(e),
        Ok(f) => {
            let mut auto = c.auto.clone();
            match auto.inherit(&f, table) {
                Err(e) => Err(e),
                Ok(_) => Ok(
                    Command {
                        id: c.id.clone(),
                        name: c.name.clone(),
                        cmd: c.cmd.clone(),
                        cwd: f.cwd,
                        auto,
                        env: f.env,
                        depends_on: clone_strings(&c.depends_on),
                        scrollback: c.scrollback,
                    },
                ),
            }
        },
    }
}

fn inherited_commands(cs: &Vec<Command>, frame: &Inheritance, table: &PathTable) -> (r: Result<
    Vec<Command>,
    InheritError,
>)
    ensures
        match r {
            Ok(done) => commands_inherited(commands_view(cs@), frame@, table@) == Ok::<
                Seq<CommandView>,
                StopView,
            >(commands_view(done@)),
            Err(e) => commands_inherited(commands_view(cs@), frame@, table@) == Err::<
                Seq<CommandView>,
                StopView,
            >(e@),
        },
{
    let ghost all = commands_view(cs@);
    let mut out: Vec<Command> = Vec::new();
    let mut i: usize = 0;
    assert(all.take(0) =~= Seq::<CommandView>::empty());
    assert(commands_view(out@) =~= Seq::<CommandView>::empty());
    while i < cs.len()
        invariant
            i <= cs.len(),
            all == commands_view(cs@),
            commands_inherited(all.take(i as int), frame@, table@) == Ok::<
                Seq<CommandView>,
                StopView,
            >(commands_view(out@)),
        decreases cs.len() - i,
    {
        proof {
            let next = all.take(i + 1);
            assert(next.drop_last() =~= all.take(i as int));
            assert(next.last() == cs@[i as int]@);
            lemma_commands_prefix(all, frame@, table@, i + 1);
        }
        match inherited_command(&cs[i], frame, table) {
            Err(e) => {
                return Err(e);
            },
            Ok(c) => {
                let ghost before = commands_view(out@);
                out.push(c);
                assert(commands_view(out@) =~= before.push(c@));
            },
        }
        i += 1;
    }
    assert(all.take(i as int) =~= all);
    Ok(out)
}

fn inherited_group(g: &CommandGroup, inheritance: &Inheritance, table: &PathTable) -> (r: Result<
    CommandGroup,
    InheritError,
>)
    ensures
        match r {
            Ok(done) => group_inherited(g@, inheritance@, table@) == Ok::<GroupView, StopView>(
                done@,
            ),
            Err(e) => group_inherited(g@, inheritance@, table@) == Err::<GroupView, StopView>(
                e@,
            ),
        },
    decreases g,
{
    proof {
        lemma_group_view(*g);
    }
    let frame = calculate_common_inheritance(
        g.name.as_str(),
        g.cwd.as_str(),
        &g.auto,
        &g.env,
        inheritance,
    );
    let f = match canonicalize(frame, table) {
        Err(e) => {
            return Err(e);
        },
        Ok(f) => f,
    };
    let mut auto = g.auto.clone();
    match auto.inherit(&f, table) {
        Err(e) => {
            return Err(e);
        },
        Ok(_) => {},
    }
    let commands = match inherited_commands(&g.commands, &f, table) {
        Err(e) => {
            return Err(e);
        },
        Ok(commands) => commands,
    };
    let ghost all = g@.children;
    let mut children: Vec<CommandGroup> = Vec::new();
    let mut i: usize = 0;
    assert(all.take(0) =~= Seq::<GroupView>::empty());
    assert(groups_view(children@) =~= Seq::<GroupView>::empty());
    while i < g.children.len()
        invariant
            i <= g.children.len(),
            all == g@.children,
            all == groups_view(g.children@),
            auto_inherited(g@.auto, f@, table@) is Ok,
            commands_inherited(g@.commands, f@, table@) is Ok,
            canonical_frame(
                common_frame(g@.name, g@.cwd, g@.auto, g@.env, inheritance@),
                table@,
            ) == Ok::<FrameView, StopView>(f@),
            groups_inherited(all.take(i as int), f@, table@) == Ok::<Seq<GroupView>, StopView>(
                groups_view(children@),
            ),
        decreases g.children.len() - i,
    {
        proof {
            let next = all.take(i + 1);
            assert(next.drop_last() =~= all.take(i as int));
            assert(next.last() == g.children@[i as int]@);
            lemma_groups_prefix(all, f@, table@, i + 1);
        }
        match inherited_group(&g.children[i], &f, table) {
            Err(e) => {
                return Err(e);
            },
            Ok(child) => {
                let ghost before = groups_view(children@);
                children.push(child);
                assert(groups_view(children@) =~= before.push(child@));
            },
        }
        i += 1;
    }
    assert(all.take(i as int) =~= all);
    let done = CommandGroup {
        id: g.id.clone(),
        name: g.name.clone(),
        auto,
        cwd: f.cwd,
        commands,
        children,
        env: f.env,
    };
    proof {
        lemma_group_view(done);
    }
    Ok(done)
}

impl Command {
    /// Settles the command under `inheritance`: working directory,
    /// environment and rules. On a stop the command is left as it was.
    pub fn inherit(&mut self, inheritance: &Inheritance, table: &PathTable) -> (r: Result<
        (),
        InheritError,
    >)
        ensures
            match r {
                Ok(_) => command_inherited(old(self)@, inheritance@, table@) == Ok::<
                    CommandView,
                    StopView,
                >(final(self)@),
                Err(e) => command_inherited(old(self)@, inheritance@, table@) == Err::<
                    CommandView,
                    StopView,
                >(e@) && final(self)@ == old(self)@,
            },
    {
        match inherited_command(self, inheritance, table) {
            Ok(done) => {
                *self = done;
                Ok(())
            },
            Err(e) => Err(e),
        }
    }
}

impl CommandGroup {
    /// Settles the whole tree under `inheritance`. On a stop the tree is
    /// left as it was.
    pub fn inherit(&mut self, inheritance: &Inheritance, table: &PathTable) -> (r: Result<
        (),
        InheritError,
    >)
        ensures
            match r {
                Ok(_) => group_inherited(old(self)@, inheritance@, table@) == Ok::<
                    GroupView,
                    StopView,
                >(final(self)@),
                Err(e) => group_inherited(old(self)@, inheritance@, table@) == Err::<
                    GroupView,
                    StopView,
                >(e@) && final(self)@ == old(self)@,
            },
    {
        match inherited_group(self, inheritance, table) {
            Ok(done) => {
                *self = done;
                Ok(())
            },
            Err(e) => Err(e),
        }
    }
}

} // verus!
