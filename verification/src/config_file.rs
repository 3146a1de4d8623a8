//! Configuration as it is written down, and its errors.

use vstd::prelude::*;
use vstd::string::*;
use crate::commands::auto::{strs, Auto, AutoView};
use crate::commands::command::{Command, CommandView};
use crate::commands::env::{env_view, EnvView};
use crate::commands::group::{CommandGroup, GroupView};
use crate::path::{extension_of, join, joined, parent_of, path_extension, path_parent};
use crate::pattern::{check_pattern, pattern_check, pattern_valid};

verus! {

/// Mathematical model of [`ConfigError`].
pub enum ConfigErrorView {
    ConfigNotFound(Seq<char>),
    DirectoryNotFound { entry: Seq<char>, path: Seq<char> },
    UnknownWorkingDirectory(Seq<char>),
    Yaml { message: Seq<char>, path: Seq<char> },
    Json { message: Seq<char>, path: Seq<char> },
    Regex { message: Seq<char>, pattern: Seq<char> },
    DuplicateId(Seq<char>),
    Validation(Seq<char>),
}

/// Errors that can occur while loading configuration.
#[derive(Debug)]
pub enum ConfigError {
    /// No configuration file at the given place, or in any directory above.
    ConfigNotFound(String),
    /// A working directory or watched path does not exist; `entry` is the
    /// dotted path of the node that names it.
    DirectoryNotFound { entry: String, path: String },
    /// The current directory could not be determined.
    UnknownWorkingDirectory(String),
    /// The file is not valid YAML for a configuration.
    Yaml { message: String, path: String },
    /// The file is not valid JSON for a configuration.
    Json { message: String, path: String },
    /// A pattern is not a regular expression.
    Regex { message: String, pattern: String },
    /// Two nodes carry the same identifier.
    DuplicateId(String),
    /// The configuration breaks a rule; the message says which.
    Validation(String),
}

impl View for ConfigError {
    type V = ConfigErrorView;

    open spec fn view(&self) -> ConfigErrorView {
        match self {
            ConfigError::ConfigNotFound(p) => ConfigErrorView::ConfigNotFound(p@),
            ConfigError::DirectoryNotFound { entry, path } => ConfigErrorView::DirectoryNotFound {
                entry: entry@,
                path: path@,
            },
            ConfigError::UnknownWorkingDirectory(m) => ConfigErrorView::UnknownWorkingDirectory(
                m@,
            ),
            ConfigError::Yaml { message, path } => ConfigErrorView::Yaml {
                message: message@,
                path: path@,
            },
            ConfigError::Json { message, path } => ConfigErrorView::Json {
                message: message@,
                path: path@,
            },
            ConfigError::Regex { message, pattern } => ConfigErrorView::Regex {
                message: message@,
                pattern: pattern@,
            },
            ConfigError::DuplicateId(id) => ConfigErrorView::DuplicateId(id@),
            ConfigError::Validation(m) => ConfigErrorView::Validation(m@),
        }
    }
}

/// Success is owed exactly when every pattern passes the check.
pub open spec fn patterns_outcome(patterns: Seq<Seq<char>>, ok: bool) -> bool {
    ok <==> forall|i: int| 0 <= i < patterns.len() ==> pattern_valid(#[trigger] patterns[i])
}

/// `e` reports the first pattern of `patterns` that fails the check,
/// with the message that the regex library gives.
pub open spec fn first_bad_pattern(patterns: Seq<Seq<char>>, e: ConfigErrorView) -> bool {
    exists|k: int|
        {
            &&& 0 <= k < patterns.len()
            &&& forall|i: int| 0 <= i < k ==> pattern_valid(#[trigger] patterns[i])
            &&& !pattern_valid(patterns[k])
            &&& e == (ConfigErrorView::Regex {
                message: pattern_check(patterns[k])->Err_0,
                pattern: patterns[k],
            })
        }
}

/// Checks a list of patterns, handing it back where every one is accepted.
///
/// Fails with `ConfigError::Regex` on the first pattern that is refused.
pub fn parse_regexes(regex: Vec<String>) -> (r: Result<Vec<String>, ConfigError>)
    ensures
        patterns_outcome(strs(regex@), r is Ok),
        match r {
            Ok(v) => strs(v@) == strs(regex@),
            Err(e) => first_bad_pattern(strs(regex@), e@),
        },
{
    let mut i: usize = 0;
    while i < regex.len()
        invariant
            i <= regex.len(),
            forall|j: int| 0 <= j < i ==> pattern_valid(#[trigger] strs(regex@)[j]),
        decreases regex.len() - i,
    {
        match check_pattern(regex[i].as_str()) {
            Ok(_) => {},
            Err(message) => {
                let e = ConfigError::Regex { message, pattern: regex[i].clone() };
                proof {
                    let k = i as int;
                    assert(strs(regex@)[k] == regex@[k]@);
                    assert(!pattern_valid(strs(regex@)[k]));
                    assert(first_bad_pattern(strs(regex@), e@));
                }
                return Err(e);
            },
        }
        i += 1;
    }
    Ok(regex)
}


/// Automation rules as written in a configuration file.
#[derive(Debug)]
pub struct ConfigAuto {
    pub watch: Option<bool>,
    pub git: Option<bool>,
    pub path: Option<Vec<String>>,
    pub regex: Option<Vec<String>>,
    pub always: Option<bool>,
}

/// A command as written in a configuration file.
#[derive(Debug)]
pub struct ConfigCommand {
    pub id: Option<String>,
    pub name: String,
    pub cwd: Option<String>,
    pub cmd: String,
    pub auto: Option<ConfigAuto>,
    pub env: Option<Vec<(String, String)>>,
    pub depends_on: Option<Vec<String>>,
    pub scrollback: Option<usize>,
}

/// A group of commands as written in a configuration file.
#[derive(Debug)]
pub struct ConfigCommandGroup {
    pub id: Option<String>,
    pub name: String,
    pub auto: Option<ConfigAuto>,
    pub cwd: Option<String>,
    pub commands: Option<Vec<ConfigCommand>>,
    pub children: Option<Vec<ConfigCommandGroup>>,
    pub env: Option<Vec<(String, String)>>,
}

/// Root configuration structure: the root group and the format version.
#[derive(Debug)]
pub struct Config {
    pub fnug_version: String,
    pub root: ConfigCommandGroup,
}

/// The characters of an optional string; nothing where it is absent.
pub open spec fn text_or_empty(s: Option<String>) -> Seq<char> {
    match s {
        Some(s) => s@,
        None => Seq::empty(),
    }
}

/// The characters of the strings of an optional list; none where it is absent.
pub open spec fn strs_or_empty(v: Option<Vec<String>>) -> Seq<Seq<char>> {
    match v {
        Some(v) => strs(v@),
        None => Seq::empty(),
    }
}

/// The entries of an optional environment list; none where it is absent.
pub open spec fn env_or_empty(v: Option<Vec<(String, String)>>) -> EnvView {
    match v {
        Some(v) => env_view(v@),
        None => Seq::empty(),
    }
}

/// The rules that a written set of rules stands for.
pub open spec fn auto_of(auto: Option<ConfigAuto>) -> AutoView {
    match auto {
        Some(a) => AutoView {
            watch: a.watch,
            git: a.git,
            path: strs_or_empty(a.path),
            regex: strs_or_empty(a.regex),
            always: a.always,
        },
        None => AutoView {
            watch: None,
            git: None,
            path: Seq::empty(),
            regex: Seq::empty(),
            always: None,
        },
    }
}

/// Mathematical model of [`ConfigCommand`]: absent parts read as empty.
pub struct WrittenCommand {
    pub id: Option<Seq<char>>,
    pub name: Seq<char>,
    pub cwd: Seq<char>,
    pub cmd: Seq<char>,
    pub auto: AutoView,
    pub env: EnvView,
    pub depends_on: Seq<Seq<char>>,
    pub scrollback: Option<usize>,
}

/// Mathematical model of [`ConfigCommandGroup`]: absent parts read as empty.
pub struct WrittenGroup {
    pub id: Option<Seq<char>>,
    pub name: Seq<char>,
    pub auto: AutoView,
    pub cwd: Seq<char>,
    pub commands: Seq<WrittenCommand>,
    pub children: Seq<WrittenGroup>,
    pub env: EnvView,
}

/// The identifier of a written node, where it has one.
pub open spec fn written_id(id: Option<String>) -> Option<Seq<char>> {
    match id {
        Some(s) => Some(s@),
        None => None,
    }
}

impl View for ConfigCommand {
    type V = WrittenCommand;

    open spec fn view(&self) -> WrittenCommand {
        WrittenCommand {
            id: written_id(self.id),
            name: self.name@,
            cwd: text_or_empty(self.cwd),
            cmd: self.cmd@,
            auto: auto_of(self.auto),
            env: env_or_empty(self.env),
            depends_on: strs_or_empty(self.depends_on),
            scrollback: self.scrollback,
        }
    }
}

/// The models of an optional list of written commands.
pub open spec fn written_commands(v: Option<Vec<ConfigCommand>>) -> Seq<WrittenCommand> {
    match v {
        Some(v) => Seq::new(v@.len(), |i: int| v@[i]@),
        None => Seq::empty(),
    }
}

/// The model of a written group, built from the models of its parts.
pub open spec fn group_written(g: ConfigCommandGroup) -> WrittenGroup
    decreases g,
{
    WrittenGroup {
        id: written_id(g.id),
        name: g.name@,
        auto: auto_of(g.auto),
        cwd: text_or_empty(g.cwd),
        commands: written_commands(g.commands),
        children: match g.children {
            Some(v) => Seq::new(
                v@.len(),
                |i: int|
                    if 0 <= i < v@.len() {
                        group_written(v@[i])
                    } else {
                        arbitrary()
                    },
            ),
            None => Seq::empty(),
        },
        env: env_or_empty(g.env),
    }
}

impl View for ConfigCommandGroup {
    type V = WrittenGroup;

    open spec fn view(&self) -> WrittenGroup {
        group_written(*self)
    }
}

/// The models of an optional list of written groups.
pub open spec fn written_groups(v: Option<Vec<ConfigCommandGroup>>) -> Seq<WrittenGroup> {
    match v {
        Some(v) => Seq::new(v@.len(), |i: int| v@[i]@),
        None => Seq::empty(),
    }
}

/// A written group's model holds the models of its parts, one for one.
pub proof fn lemma_written_view(g: ConfigCommandGroup)
    ensures
        g@.id == written_id(g.id),
        g@.name == g.name@,
        g@.auto == auto_of(g.auto),
        g@.cwd == text_or_empty(g.cwd),
        g@.commands == written_commands(g.commands),
        g@.children == written_groups(g.children),
        g@.env == env_or_empty(g.env),
{
    assert(g@.children =~= written_groups(g.children));
}

/// The patterns of a list of written commands, command after command.
pub open spec fn commands_patterns(cs: Seq<WrittenCommand>) -> Seq<Seq<char>>
    decreases cs.len(),
{
    if cs.len() == 0 {
        Seq::empty()
    } else {
        commands_patterns(cs.drop_last()) + cs.last().auto.regex
    }
}

/// Every pattern of a written group, in the order in which they are checked:
/// those of the child groups, then those of the commands, then the group's own.
pub open spec fn group_patterns(g: WrittenGroup) -> Seq<Seq<char>>
    decreases g, 1int,
{
    children_patterns(g.children) + commands_patterns(g.commands) + g.auto.regex
}

/// The patterns of a list of written groups, group after group.
pub open spec fn children_patterns(gs: Seq<WrittenGroup>) -> Seq<Seq<char>>
    decreases gs, 0int,
{
    if gs.len() == 0 {
        Seq::empty()
    } else {
        children_patterns(gs.drop_last()) + group_patterns(gs.last())
    }
}

/// `c` is what the written command `w` stands for: every part as written,
/// and the identifier too where one was written.
pub open spec fn command_converts(w: WrittenCommand, c: CommandView) -> bool {
    &&& c.name == w.name
    &&& c.cmd == w.cmd
    &&& c.cwd == w.cwd
    &&& c.auto == w.auto
    &&& c.env == w.env
    &&& c.depends_on == w.depends_on
    &&& c.scrollback == w.scrollback
    &&& w.id matches Some(id) ==> c.id == id
}

/// `g` is what the written group `w` stands for, node by node.
pub open spec fn group_converts(w: WrittenGroup, g: GroupView) -> bool
    decreases w,
{
    &&& g.name == w.name
    &&& g.cwd == w.cwd
    &&& g.auto == w.auto
    &&& g.env == w.env
    &&& (w.id matches Some(id) ==> g.id == id)
    &&& g.commands.len() == w.commands.len()
    &&& forall|i: int|
        0 <= i < w.commands.len() ==> command_converts(w.commands[i], #[trigger] g.commands[i])
    &&& g.children.len() == w.children.len()
    &&& forall|i: int|
        0 <= i < w.children.len() ==> group_converts(w.children[i], #[trigger] g.children[i])
}


/// A new random identifier, as text.
///
/// Calls `uuid::Uuid::new_v4` and renders the result with `to_string`.
/// Nothing is promised of the text: it differs from call to call.
#[verifier::external_body]
fn fresh_id() -> String {
    uuid::Uuid::new_v4().to_string()
}

fn clone_or_empty(s: &Option<String>) -> (r: String)
    ensures
        r@ == text_or_empty(*s),
{
    match s {
        Some(s) => s.clone(),
        None => String::new(),
    }
}

fn strings_or_empty(v: &Option<Vec<String>>) -> (r: Vec<String>)
    ensures
        strs(r@) == strs_or_empty(*v),
{
    match v {
        Some(v) => crate::commands::auto::clone_strings(v),
        None => {
            let r: Vec<String> = Vec::new();
            assert(strs(r@) =~= Seq::<Seq<char>>::empty());
            r
        },
    }
}

fn entries_or_empty(v: &Option<Vec<(String, String)>>) -> (r: Vec<(String, String)>)
    ensures
        env_view(r@) == env_or_empty(*v),
{
    match v {
        Some(v) => crate::commands::env::clone_env(v),
        None => {
            let r: Vec<(String, String)> = Vec::new();
            assert(env_view(r@) =~= Seq::empty());
            r
        },
    }
}

fn id_or_fresh(id: &Option<String>) -> (r: String)
    ensures
        written_id(*id) matches Some(text) ==> r@ == text,
{
    match id {
        Some(s) => s.clone(),
        None => fresh_id(),
    }
}

fn build_auto(config: &Option<ConfigAuto>) -> (r: Auto)
    ensures
        r@ == auto_of(*config),
{
    match config {
        Some(a) => Auto {
            watch: a.watch,
            git: a.git,
            path: strings_or_empty(&a.path),
            regex: strings_or_empty(&a.regex),
            always: a.always,
        },
        None => Auto::default(),
    }
}

fn build_command(config: &ConfigCommand) -> (r: Command)
    ensures
        command_converts(config@, r@),
{
    Command {
        cwd: clone_or_empty(&config.cwd),
        auto: build_auto(&config.auto),
        cmd: config.cmd.clone(),
        id: id_or_fresh(&config.id),
        name: config.name.clone(),
        env: entries_or_empty(&config.env),
        depends_on: strings_or_empty(&config.depends_on),
        scrollback: config.scrollback,
    }
}

fn build_commands(config: &Option<Vec<ConfigCommand>>) -> (r: Vec<Command>)
    ensures
        r@.len() == written_commands(*config).len(),
        forall|i: int|
            0 <= i < r@.len() ==> command_converts(written_commands(*config)[i], #[trigger] r@[i]@),
{
    let mut out: Vec<Command> = Vec::new();
    match config {
        Some(v) => {
            let mut i: usize = 0;
            while i < v.len()
                invariant
                    i <= v.len(),
                    *config == Some(*v),
                    out@.len() == i,
                    forall|j: int|
                        0 <= j < i ==> command_converts(
                            written_commands(*config)[j],
                            #[trigger] out@[j]@,
                        ),
                decreases v.len() - i,
            {
                out.push(build_command(&v[i]));
                i += 1;
            }
        },
        None => {},
    }
    out
}

fn build_group(config: &ConfigCommandGroup) -> (r: CommandGroup)
    ensures
        group_converts(config@, r@),
    decreases config,
{
    let mut children: Vec<CommandGroup> = Vec::new();
    match &config.children {
        Some(v) => {
            let mut i: usize = 0;
            while i < v.len()
                invariant
                    i <= v.len(),
                    config.children == Some(*v),
                    children@.len() == i,
                    forall|j: int|
                        0 <= j < i ==> group_converts(
                            written_groups(config.children)[j],
                            #[trigger] children@[j]@,
                        ),
                decreases v.len() - i,
            {
                proof {
                    assert(config.children->Some_0 == *v);
                    assert(decreases_to!(config => config.children));
                    assert(decreases_to!(config.children => config.children->Some_0));
                    assert(decreases_to!(*v => v@[i as int]));
                }
                children.push(build_group(&v[i]));
                i += 1;
            }
        },
        None => {},
    }
    let commands = build_commands(&config.commands);
    let r = CommandGroup {
        id: id_or_fresh(&config.id),
        name: config.name.clone(),
        auto: build_auto(&config.auto),
        cwd: clone_or_empty(&config.cwd),
        commands,
        children,
        env: entries_or_empty(&config.env),
    };
    proof {
        lemma_written_view(*config);
        crate::commands::group::lemma_group_view(r);
    }
    r
}

fn push_strings(out: &mut Vec<String>, v: &Option<Vec<String>>)
    ensures
        strs(final(out)@) == strs(old(out)@) + strs_or_empty(*v),
{
    let mut more = strings_or_empty(v);
    let ghost before = out@;
    let ghost added = more@;
    out.append(&mut more);
    assert(strs(out@) =~= strs(before) + strs(added));
}

fn push_auto_patterns(out: &mut Vec<String>, auto: &Option<ConfigAuto>)
    ensures
        strs(final(out)@) == strs(old(out)@) + auto_of(*auto).regex,
{
    match auto {
        Some(a) => push_strings(out, &a.regex),
        None => {
            assert(strs(out@) =~= strs(out@) + Seq::<Seq<char>>::empty());
        },
    }
}

fn collect_patterns(out: &mut Vec<String>, config: &ConfigCommandGroup)
    ensures
        strs(final(out)@) == strs(old(out)@) + group_patterns(config@),
    decreases config,
{
    proof {
        lemma_written_view(*config);
    }
    let ghost start = strs(out@);
    match &config.children {
        Some(v) => {
            let mut i: usize = 0;
            assert(config@.children.take(0) =~= Seq::<WrittenGroup>::empty());
            assert(start =~= start + children_patterns(config@.children.take(0)));
            while i < v.len()
                invariant
                    i <= v.len(),
                    config.children == Some(*v),
                    config@.children == written_groups(config.children),
                    strs(out@) == start + children_patterns(config@.children.take(i as int)),
                decreases v.len() - i,
            {
                proof {
                    let next = config@.children.take(i + 1);
                    assert(next.drop_last() =~= config@.children.take(i as int));
                    assert(next.last() == v@[i as int]@);
                }
                collect_patterns(out, &v[i]);
                assert(strs(out@) =~= start + children_patterns(config@.children.take(i + 1)));
                i += 1;
            }
            assert(config@.children.take(i as int) =~= config@.children);
        },
        None => {
            assert(start =~= start + children_patterns(config@.children));
        },
    }
    let ghost mid = strs(out@);
    match &config.commands {
        Some(v) => {
            let mut i: usize = 0;
            assert(config@.commands.take(0) =~= Seq::<WrittenCommand>::empty());
            assert(mid =~= mid + commands_patterns(config@.commands.take(0)));
            while i < v.len()
                invariant
                    i <= v.len(),
                    config.commands == Some(*v),
                    config@.commands == written_commands(config.commands),
                    strs(out@) == mid + commands_patterns(config@.commands.take(i as int)),
                decreases v.len() - i,
            {
                proof {
                    let next = config@.commands.take(i + 1);
                    assert(next.drop_last() =~= config@.commands.take(i as int));
                    assert(next.last() == v@[i as int]@);
                }
                push_auto_patterns(out, &v[i].auto);
                assert(strs(out@) =~= mid + commands_patterns(config@.commands.take(i + 1)));
                i += 1;
            }
            assert(config@.commands.take(i as int) =~= config@.commands);
        },
        None => {
            assert(mid =~= mid + commands_patterns(config@.commands));
        },
    }
    let ghost late = strs(out@);
    push_auto_patterns(out, &config.auto);
    assert(strs(out@) =~= start + group_patterns(config@));
}

impl Auto {
    /// The rules that a written set of rules stands for, with each pattern
    /// checked.
    pub fn from_config(config: &Option<ConfigAuto>) -> (r: Result<Auto, ConfigError>)
        ensures
            patterns_outcome(auto_of(*config).regex, r is Ok),
            match r {
                Ok(auto) => auto@ == auto_of(*config),
                Err(e) => first_bad_pattern(auto_of(*config).regex, e@),
            },
    {
        let auto = build_auto(config);
        match parse_regexes(crate::commands::auto::clone_strings(&auto.regex)) {
            Ok(_) => Ok(auto),
            Err(e) => Err(e),
        }
    }
}

impl Command {
    /// The command that a written command stands for. A missing identifier
    /// is replaced by a fresh random one.
    pub fn from_config(config: &ConfigCommand) -> (r: Result<Command, ConfigError>)
        ensures
            patterns_outcome(config@.auto.regex, r is Ok),
            match r {
                Ok(c) => command_converts(config@, c@),
                Err(e) => first_bad_pattern(config@.auto.regex, e@),
            },
    {
        let c = build_command(config);
        match parse_regexes(crate::commands::auto::clone_strings(&c.auto.regex)) {
            Ok(_) => Ok(c),
            Err(e) => Err(e),
        }
    }
}

impl CommandGroup {
    /// The tree that a written group stands for. Every pattern in it is
    /// checked, child groups first, then commands, then the group's own;
    /// missing identifiers are replaced by fresh random ones.
    pub fn from_config(config: &ConfigCommandGroup) -> (r: Result<CommandGroup, ConfigError>)
        ensures
            patterns_outcome(group_patterns(config@), r is Ok),
            match r {
                Ok(g) => group_converts(config@, g@),
                Err(e) => first_bad_pattern(group_patterns(config@), e@),
            },
    {
        let mut patterns: Vec<String> = Vec::new();
        collect_patterns(&mut patterns, config);
        assert(strs(patterns@) =~= group_patterns(config@));
        match parse_regexes(patterns) {
            Ok(_) => Ok(build_group(config)),
            Err(e) => Err(e),
        }
    }
}

/// The format of a configuration file.
#[derive(Debug, Clone, Copy, PartialEq, Eq, Structural)]
pub enum ConfigFormat {
    Json,
    Yaml,
}

/// The format in which a file is read: JSON where its extension is `json`,
/// YAML otherwise.
pub open spec fn format_of(path: Seq<char>) -> ConfigFormat {
    if extension_of(path) == Some("json"@) {
        ConfigFormat::Json
    } else {
        ConfigFormat::Yaml
    }
}

/// The places where a configuration may lie in the directory `dir`, in the
/// order in which they are tried.
pub open spec fn candidates_in(dir: Seq<char>) -> Seq<Seq<char>> {
    seq![joined(dir, ".fnug.json"@), joined(dir, ".fnug.yaml"@), joined(dir, ".fnug.yml"@)]
}

/// The places where a configuration may lie for a search that starts in
/// `dir`: in `dir`, then in the directory above it, and so on to the root.
pub open spec fn candidates_from(dir: Seq<char>) -> Seq<Seq<char>>
    decreases dir.len(),
{
    candidates_in(dir) + match parent_of(dir) {
        Some(p) => if p.len() < dir.len() {
            candidates_from(p)
        } else {
            Seq::empty()
        },
        None => Seq::empty(),
    }
}

/// The first place among `candidates` that is present, counting on from
/// `from`; the number of candidates where none is.
pub open spec fn first_present(present: Seq<bool>, from: int) -> int
    decreases present.len() - from,
{
    if from < 0 || from >= present.len() {
        present.len() as int
    } else if present[from] {
        from
    } else {
        first_present(present, from + 1)
    }
}

impl Config {
    /// The format in which the file at `path` is read.
    pub fn format_for(path: &str) -> (r: ConfigFormat)
        ensures
            r == format_of(path@),
    {
        match path_extension(path) {
            Some(e) => {
                if crate::text::same_str(&e, "json") {
                    ConfigFormat::Json
                } else {
                    ConfigFormat::Yaml
                }
            },
            None => ConfigFormat::Yaml,
        }
    }

    /// The places to look for a configuration, for a search that starts in
    /// the directory `start`.
    pub fn candidates(start: &str) -> (r: Vec<String>)
        ensures
            strs(r@) == candidates_from(start@),
    {
        let mut out: Vec<String> = Vec::new();
        let mut dir = String::from_str(start);
        let ghost mut done: Seq<Seq<char>> = Seq::empty();
        assert(strs(out@) =~= done);
        loop
            invariant
                strs(out@) == done,
                done + candidates_from(dir@) == candidates_from(start@),
            decreases dir@.len(),
        {
            let ghost before = strs(out@);
            out.push(join(dir.as_str(), ".fnug.json"));
            out.push(join(dir.as_str(), ".fnug.yaml"));
            out.push(join(dir.as_str(), ".fnug.yml"));
            assert(strs(out@) =~= before + candidates_in(dir@));
            match path_parent(dir.as_str()) {
                Some(p) => {
                    proof {
                        assert(done + candidates_in(dir@) + candidates_from(p@) =~= done + (
                        candidates_in(dir@) + candidates_from(p@)));
                        done = done + candidates_in(dir@);
                    }
                    dir = p;
                },
                None => {
                    assert(candidates_from(dir@) =~= candidates_in(dir@));
                    return out;
                },
            }
        }
    }

    /// Picks the configuration file: the first of `candidates` that is
    /// present. Fails with `ConfigNotFound` for the directory `start`
    /// where none is.
    pub fn find_config(candidates: &Vec<String>, present: &Vec<bool>, start: &str) -> (r: Result<
        String,
        ConfigError,
    >)
        requires
            present@.len() == candidates@.len(),
        ensures
            match r {
                Ok(p) => first_present(present@, 0) < present@.len() && p@
                    == candidates@[first_present(present@, 0)]@,
                Err(e) => first_present(present@, 0) == present@.len() && e@
                    == ConfigErrorView::ConfigNotFound(start@),
            },
    {
        let mut i: usize = 0;
        while i < candidates.len()
            invariant
                i <= candidates.len(),
                present@.len() == candidates@.len(),
                first_present(present@, 0) == first_present(present@, i as int),
            decreases candidates.len() - i,
        {
            if present[i] {
                return Ok(candidates[i].clone());
            }
            i += 1;
        }
        Err(ConfigError::ConfigNotFound(String::from_str(start)))
    }
}

} // verus!
