//! The tool surface: what it lists and what it selects to run.

use vstd::prelude::*;
use vstd::string::*;
use crate::check::Verdict;
use crate::commands::auto::{clone_strings, strs};
use crate::commands::command::{commands_view, Command, CommandView};
use crate::commands::group::{groups_view, lemma_group_view, CommandGroup, GroupView};
use crate::text::{
    concat2, concat3, contains_text, eq_ignore_ascii_case, eq_ignoring_ascii_case, find_text,
    listed, lowercase, lowercase_of, same_str, str_contains,
};
use crate::validate::{command_ids, ids_of};

verus! {

/// The filters of a listing.
#[derive(Debug)]
pub struct ListLintsParams {
    /// Keep commands whose group path holds this text, whatever the case.
    pub group: Option<String>,
    /// Keep commands by how they are selected: `git`, `watch`, `always`,
    /// or `none` for those selected by hand only.
    pub auto_type: Option<String>,
    /// Keep commands whose name or identifier holds this text, whatever
    /// the case.
    pub name: Option<String>,
}

/// The three switches of a command's rules.
#[derive(Debug, Clone, Copy, PartialEq, Eq, Structural)]
pub struct AutoRules {
    pub git: Option<bool>,
    pub watch: Option<bool>,
    pub always: Option<bool>,
}

/// Mathematical model of [`LintInfo`].
pub struct LintView {
    pub id: Seq<char>,
    pub name: Seq<char>,
    pub cmd: Seq<char>,
    pub cwd: Seq<char>,
    pub auto_rules: AutoRules,
    pub depends_on: Seq<Seq<char>>,
    pub group: Seq<char>,
    pub selected: bool,
}

/// What a listing says of a command.
#[derive(Debug)]
pub struct LintInfo {
    pub id: String,
    pub name: String,
    pub cmd: String,
    pub cwd: String,
    pub auto_rules: AutoRules,
    pub depends_on: Vec<String>,
    pub group: String,
    pub selected: bool,
}

impl View for LintInfo {
    type V = LintView;

    open spec fn view(&self) -> LintView {
        LintView {
            id: self.id@,
            name: self.name@,
            cmd: self.cmd@,
            cwd: self.cwd@,
            auto_rules: self.auto_rules,
            depends_on: strs(self.depends_on@),
            group: self.group@,
            selected: self.selected,
        }
    }
}

/// The models of a list of listing entries.
pub open spec fn lints_view(v: Seq<LintInfo>) -> Seq<LintView> {
    Seq::new(v.len(), |i: int| v[i]@)
}

/// Mathematical model of [`ListLintsParams`].
pub struct ParamsView {
    pub group: Option<Seq<char>>,
    pub auto_type: Option<Seq<char>>,
    pub name: Option<Seq<char>>,
}

impl View for ListLintsParams {
    type V = ParamsView;

    open spec fn view(&self) -> ParamsView {
        ParamsView {
            group: match self.group {
                Some(s) => Some(s@),
                None => None,
            },
            auto_type: match self.auto_type {
                Some(s) => Some(s@),
                None => None,
            },
            name: match self.name {
                Some(s) => Some(s@),
                None => None,
            },
        }
    }
}

/// The command passes the filter by kind of selection. A kind that is
/// none of the four filters nothing.
pub open spec fn passes_kind(c: CommandView, kind: Seq<char>) -> bool {
    let k = lowercase_of(kind);
    if k == "git"@ {
        c.auto.git == Some(true)
    } else if k == "watch"@ {
        c.auto.watch == Some(true)
    } else if k == "always"@ {
        c.auto.always == Some(true)
    } else if k == "none"@ {
        !(c.auto.git == Some(true) || c.auto.watch == Some(true) || c.auto.always == Some(true))
    } else {
        true
    }
}

/// The command, found under the group path `path`, passes every filter
/// that is set.
pub open spec fn passes(c: CommandView, path: Seq<char>, params: ParamsView) -> bool {
    &&& params.group matches Some(g) ==> contains_text(lowercase_of(path), lowercase_of(g))
    &&& params.name matches Some(n) ==> contains_text(lowercase_of(c.name), lowercase_of(n))
        || contains_text(lowercase_of(c.id), lowercase_of(n))
    &&& params.auto_type matches Some(k) ==> passes_kind(c, k)
}

/// What the listing says of a command found under the group path `path`.
pub open spec fn lint_of(c: CommandView, path: Seq<char>, selected_ids: Seq<Seq<char>>) -> LintView {
    LintView {
        id: c.id,
        name: c.name,
        cmd: c.cmd,
        cwd: c.cwd,
        auto_rules: AutoRules { git: c.auto.git, watch: c.auto.watch, always: c.auto.always },
        depends_on: c.depends_on,
        group: path,
        selected: listed(selected_ids, c.id),
    }
}

/// The group path of a child named `name` under the path `path`.
pub open spec fn child_path(path: Seq<char>, name: Seq<char>) -> Seq<char> {
    if path.len() == 0 {
        name
    } else {
        path + " > "@ + name
    }
}

/// The entries for the commands of a list that pass the filters.
pub open spec fn lints_among(
    cs: Seq<CommandView>,
    path: Seq<char>,
    selected_ids: Seq<Seq<char>>,
    params: ParamsView,
) -> Seq<LintView>
    decreases cs.len(),
{
    if cs.len() == 0 {
        Seq::empty()
    } else if passes(cs.last(), path, params) {
        lints_among(cs.drop_last(), path, selected_ids, params).push(
            lint_of(cs.last(), path, selected_ids),
        )
    } else {
        lints_among(cs.drop_last(), path, selected_ids, params)
    }
}

/// The listing of the tree under a group whose group path is `path`: the
/// group's own commands, then those of each child group, each child under
/// the path extended by its name.
pub open spec fn lints_of(
    g: GroupView,
    path: Seq<char>,
    selected_ids: Seq<Seq<char>>,
    params: ParamsView,
) -> Seq<LintView>
    decreases g, 1int,
{
    lints_among(g.commands, path, selected_ids, params) + lints_under(
        g.children,
        path,
        selected_ids,
        params,
    )
}

/// The listing of the trees under a list of groups.
pub open spec fn lints_under(
    gs: Seq<GroupView>,
    path: Seq<char>,
    selected_ids: Seq<Seq<char>>,
    params: ParamsView,
) -> Seq<LintView>
    decreases gs, 0int,
{
    if gs.len() == 0 {
        Seq::empty()
    } else {
        lints_under(gs.drop_last(), path, selected_ids, params) + lints_of(
            gs.last(),
            child_path(path, gs.last().name),
            selected_ids,
            params,
        )
    }
}

fn is_on(switch: Option<bool>) -> (r: bool)
    ensures
        r == (switch == Some(true)),
{
    match switch {
        Some(b) => b,
        None => false,
    }
}

fn check_kind(cmd: &Command, kind: &str) -> (r: bool)
    ensures
        r == passes_kind(cmd@, kind@),
{
    let k = lowercase(kind);
    if same_str(&k, "git") {
        is_on(cmd.auto.git)
    } else if same_str(&k, "watch") {
        is_on(cmd.auto.watch)
    } else if same_str(&k, "always") {
        is_on(cmd.auto.always)
    } else if same_str(&k, "none") {
        !(is_on(cmd.auto.git) || is_on(cmd.auto.watch) || is_on(cmd.auto.always))
    } else {
        true
    }
}

fn check_filters(cmd: &Command, path: &str, params: &ListLintsParams) -> (r: bool)
    ensures
        r == passes(cmd@, path@, params@),
{
    match &params.group {
        Some(g) => {
            if !str_contains(lowercase(path).as_str(), lowercase(g.as_str()).as_str()) {
                return false;
            }
        },
        None => {},
    }
    match &params.name {
        Some(n) => {
            let n_lower = lowercase(n.as_str());
            if !str_contains(lowercase(cmd.name.as_str()).as_str(), n_lower.as_str())
                && !str_contains(lowercase(cmd.id.as_str()).as_str(), n_lower.as_str()) {
                return false;
            }
        },
        None => {},
    }
    match &params.auto_type {
        Some(k) => {
            if !check_kind(cmd, k.as_str()) {
                return false;
            }
        },
        None => {},
    }
    true
}

fn push_lints(
    group: &CommandGroup,
    path: &str,
    selected_ids: &Vec<String>,
    params: &ListLintsParams,
    out: &mut Vec<LintInfo>,
)
    ensures
        lints_view(final(out)@) == lints_view(old(out)@) + lints_of(
            group@,
            path@,
            strs(selected_ids@),
            params@,
        ),
    decreases group,
{
    proof {
        lemma_group_view(*group);
    }
    let ghost start = lints_view(out@);
    let ghost cs = group@.commands;
    let ghost ids = strs(selected_ids@);
    let mut i: usize = 0;
    proof {
        assert(cs.take(0) =~= Seq::<CommandView>::empty());
        assert(start =~= start + lints_among(cs.take(0), path@, ids, params@));
    }
    while i < group.commands.len()
        invariant
            i <= group.commands.len(),
            cs == commands_view(group.commands@),
            ids == strs(selected_ids@),
            lints_view(out@) == start + lints_among(cs.take(i as int), path@, ids, params@),
        decreases group.commands.len() - i,
    {
        proof {
            let next = cs.take(i + 1);
            assert(next.drop_last() =~= cs.take(i as int));
            assert(next.last() == group.commands@[i as int]@);
        }
        let cmd = &group.commands[i];
        if check_filters(cmd, path, params) {
            let ghost before = lints_view(out@);
            let info = LintInfo {
                selected: find_text(selected_ids, &cmd.id) < selected_ids.len(),
                id: cmd.id.clone(),
                name: cmd.name.clone(),
                cmd: cmd.cmd.clone(),
                cwd: cmd.cwd.clone(),
                auto_rules: AutoRules {
                    git: cmd.auto.git,
                    watch: cmd.auto.watch,
                    always: cmd.auto.always,
                },
                depends_on: clone_strings(&cmd.depends_on),
                group: String::from_str(path),
            };
            assert(info@ == lint_of(cmd@, path@, ids));
            out.push(info);
            assert(lints_view(out@) =~= before.push(lint_of(cmd@, path@, ids)));
        }
        i += 1;
    }
    assert(cs.take(i as int) =~= cs);
    let ghost mid = lints_view(out@);
    let ghost kids = group@.children;
    let mut k: usize = 0;
    proof {
        assert(kids.take(0) =~= Seq::<GroupView>::empty());
        assert(mid =~= mid + lints_under(kids.take(0), path@, ids, params@));
    }
    while k < group.children.len()
        invariant
            k <= group.children.len(),
            kids == groups_view(group.children@),
            ids == strs(selected_ids@),
            lints_view(out@) == mid + lints_under(kids.take(k as int), path@, ids, params@),
        decreases group.children.len() - k,
    {
        proof {
            let next = kids.take(k + 1);
            assert(next.drop_last() =~= kids.take(k as int));
            assert(next.last() == group.children@[k as int]@);
        }
        let child = &group.children[k];
        let below = if path.is_empty() {
            child.name.clone()
        } else {
            concat3(path, " > ", child.name.as_str())
        };
        assert(below@ == child_path(path@, child@.name));
        push_lints(child, below.as_str(), selected_ids, params, out);
        assert(lints_view(out@) =~= mid + lints_under(kids.take(k + 1), path@, ids, params@));
        k += 1;
    }
    assert(kids.take(k as int) =~= kids);
    assert(lints_view(out@) =~= start + lints_of(group@, path@, ids, params@));
}

/// Lists the commands of the tree that pass the filters, each with its
/// group path and with whether it is among `selected`.
pub fn list_lints(config: &CommandGroup, selected: &Vec<Command>, params: &ListLintsParams) -> (r:
    Vec<LintInfo>)
    ensures
        lints_view(r@) == lints_of(
            config@,
            config@.name,
            command_ids(commands_view(selected@)),
            params@,
        ),
{
    proof {
        lemma_group_view(*config);
    }
    let mut ids: Vec<String> = Vec::new();
    let mut i: usize = 0;
    while i < selected.len()
        invariant
            i <= selected.len(),
            ids@.len() == i,
            forall|j: int| 0 <= j < i ==> ids@[j]@ == selected@[j]@.id,
        decreases selected.len() - i,
    {
        ids.push(selected[i].id.clone());
        i += 1;
    }
    assert(strs(ids@) =~= command_ids(commands_view(selected@)));
    let mut out: Vec<LintInfo> = Vec::new();
    push_lints(config, config.name.as_str(), &ids, params, &mut out);
    assert(lints_view(out@) =~= lints_of(config@, config@.name, strs(ids@), params@));
    out
}

/// Which commands a run is about.
#[derive(Debug)]
pub enum CommandSelection {
    /// The commands selected by always-rule and by version-control changes.
    GitSelected,
    /// The one command with this name or identifier.
    Single(String),
    /// Every command.
    All,
}

/// The command answers to `target`: by its identifier, or by its name
/// whatever the case of its ASCII letters.
pub open spec fn answers_to(c: CommandView, target: Seq<char>) -> bool {
    c.id == target || eq_ignoring_ascii_case(c.name, target)
}

/// The position of the first command that answers to `target`, counting
/// on from `from`; the list's length where none does.
pub open spec fn answering(cs: Seq<CommandView>, target: Seq<char>, from: int) -> int
    decreases cs.len() - from,
{
    if from < 0 || from >= cs.len() {
        cs.len() as int
    } else if answers_to(cs[from], target) {
        from
    } else {
        answering(cs, target, from + 1)
    }
}

/// The message for a target that no command answers to.
pub open spec fn not_found_message(target: Seq<char>) -> Seq<char> {
    "Command not found: "@ + target
}

/// Finds the command that a run of a single command is about: the first
/// whose identifier is `target`, or whose name is `target` whatever the
/// case of its ASCII letters.
pub fn find_target(all_commands: &Vec<Command>, target: &str) -> (r: Result<usize, String>)
    ensures
        match r {
            Ok(i) => i == answering(commands_view(all_commands@), target@, 0) && i
                < all_commands@.len(),
            Err(m) => answering(commands_view(all_commands@), target@, 0) == all_commands@.len()
                && m@ == not_found_message(target@),
        },
{
    let ghost cs = commands_view(all_commands@);
    let key = String::from_str(target);
    let mut i: usize = 0;
    while i < all_commands.len()
        invariant
            i <= all_commands.len(),
            cs == commands_view(all_commands@),
            key@ == target@,
            answering(cs, target@, 0) == answering(cs, target@, i as int),
        decreases all_commands.len() - i,
    {
        assert(cs[i as int] == all_commands@[i as int]@);
        if all_commands[i].id.eq(&key) || eq_ignore_ascii_case(
            all_commands[i].name.as_str(),
            target,
        ) {
            return Ok(i);
        }
        i += 1;
    }
    Err(concat2("Command not found: ", target))
}

/// How a verdict reads in a report.
pub fn verdict_label(verdict: Verdict) -> (r: &'static str)
    ensures
        r@ == match verdict {
            Verdict::Passed => "passed"@,
            Verdict::Failed => "failed"@,
            Verdict::Skipped => "skipped"@,
        },
{
    match verdict {
        Verdict::Passed => "passed",
        Verdict::Failed => "failed",
        Verdict::Skipped => "skipped",
    }
}

/// What stands in place of the error output of a skipped command.
pub fn skipped_note() -> (r: &'static str)
    ensures
        r@ == "Skipped: dependency failed"@,
{
    "Skipped: dependency failed"
}

} // verus!
