use vstd::prelude::*;
use crate::commands::auto::{Auto, AutoView};
use crate::commands::command::{clone_commands, commands_view, refs_view, Command, CommandView};
use crate::commands::env::{clone_env, env_view, EnvView};

verus! {

/// Mathematical model of [`CommandGroup`].
pub struct GroupView {
    pub id: Seq<char>,
    pub name: Seq<char>,
    pub auto: AutoView,
    pub cwd: Seq<char>,
    pub commands: Seq<CommandView>,
    pub children: Seq<GroupView>,
    pub env: EnvView,
}

/// Hierarchical grouping of related commands.
#[derive(Debug)]
pub struct CommandGroup {
    pub id: String,
    pub name: String,
    pub auto: Auto,
    pub cwd: String,
    pub commands: Vec<Command>,
    pub children: Vec<CommandGroup>,
    pub env: Vec<(String, String)>,
}

/// The model of a group, built from the models of its parts.
pub open spec fn group_model(g: CommandGroup) -> GroupView
    decreases g,
{
    GroupView {
        id: g.id@,
        name: g.name@,
        auto: g.auto@,
        cwd: g.cwd@,
        commands: commands_view(g.commands@),
        children: Seq::new(
            g.children@.len(),
            |i: int|
                if 0 <= i < g.children@.len() {
                    group_model(g.children@[i])
                } else {
                    arbitrary()
                },
        ),
        env: env_view(g.env@),
    }
}

impl View for CommandGroup {
    type V = GroupView;

    open spec fn view(&self) -> GroupView {
        group_model(*self)
    }
}

/// The models of a list of groups.
pub open spec fn groups_view(v: Seq<CommandGroup>) -> Seq<GroupView> {
    Seq::new(v.len(), |i: int| v[i]@)
}

/// Every command of a group and of the groups below it: the group's own
/// first, then each child's in turn.
pub open spec fn flat_commands(g: GroupView) -> Seq<CommandView>
    decreases g, 1int,
{
    g.commands + flat_children(g.children)
}

/// The commands of a list of groups, group after group.
pub open spec fn flat_children(gs: Seq<GroupView>) -> Seq<CommandView>
    decreases gs, 0int,
{
    if gs.len() == 0 {
        Seq::empty()
    } else {
        flat_children(gs.drop_last()) + flat_commands(gs.last())
    }
}

/// A group's model holds the models of its parts, one for one.
pub proof fn lemma_group_view(g: CommandGroup)
    ensures
        g@.id == g.id@,
        g@.name == g.name@,
        g@.auto == g.auto@,
        g@.cwd == g.cwd@,
        g@.env == env_view(g.env@),
        g@.commands == commands_view(g.commands@),
        g@.children == groups_view(g.children@),
{
    assert(g@.children =~= groups_view(g.children@));
}

impl Clone for CommandGroup {
    fn clone(&self) -> (r: Self)
        ensures
            r@ == self@,
        decreases self,
    {
        let mut children: Vec<CommandGroup> = Vec::new();
        let mut i: usize = 0;
        while i < self.children.len()
            invariant
                i <= self.children.len(),
                children@.len() == i,
                forall|j: int| 0 <= j < i ==> children@[j]@ == self.children@[j]@,
            decreases self.children.len() - i,
        {
            children.push(self.children[i].clone());
            i += 1;
        }
        assert(groups_view(children@) =~= groups_view(self.children@));
        let r = CommandGroup {
            id: self.id.clone(),
            name: self.name.clone(),
            auto: self.auto.clone(),
            cwd: self.cwd.clone(),
            commands: clone_commands(&self.commands),
            children,
            env: clone_env(&self.env),
        };
        proof {
            lemma_group_view(r);
            lemma_group_view(*self);
        }
        r
    }
}

impl Default for CommandGroup {
    fn default() -> (r: Self)
        ensures
            r@ == (GroupView {
                id: Seq::empty(),
                name: Seq::empty(),
                auto: AutoView {
                    watch: None,
                    git: None,
                    path: Seq::empty(),
                    regex: Seq::empty(),
                    always: None,
                },
                cwd: Seq::empty(),
                commands: Seq::empty(),
                children: Seq::empty(),
                env: Seq::empty(),
            }),
    {
        let r = CommandGroup {
            id: String::new(),
            name: String::new(),
            auto: Auto::default(),
            cwd: String::new(),
            commands: Vec::new(),
            children: Vec::new(),
            env: Vec::new(),
        };
        assert(env_view(r.env@) =~= Seq::empty());
        assert(commands_view(r.commands@) =~= Seq::empty());
        assert(groups_view(r.children@) =~= Seq::empty());
        proof {
            lemma_group_view(r);
        }
        r
    }
}

impl CommandGroup {
    /// Returns a flattened list of all commands in this group and its children.
    pub fn all_commands(&self) -> (r: Vec<&Command>)
        ensures
            refs_view(r@) == flat_commands(self@),
        decreases self,
    {
        let mut out: Vec<&Command> = Vec::new();
        let mut i: usize = 0;
        while i < self.commands.len()
            invariant
                i <= self.commands.len(),
                refs_view(out@) == commands_view(self.commands@).take(i as int),
            decreases self.commands.len() - i,
        {
            let ghost before = out@;
            out.push(&self.commands[i]);
            assert(refs_view(before).len() == i);
            assert forall|j: int| 0 <= j < i + 1 implies refs_view(out@)[j] == commands_view(
                self.commands@,
            ).take(i + 1)[j] by {
                if j < i {
                    assert(refs_view(before)[j] == before[j]@);
                }
            }
            assert(refs_view(out@) =~= commands_view(self.commands@).take(i + 1));
            i += 1;
        }
        assert(commands_view(self.commands@).take(i as int) =~= commands_view(self.commands@));
        proof {
            lemma_group_view(*self);
            assert(self@.children.take(0) =~= Seq::<GroupView>::empty());
        }
        let mut k: usize = 0;
        while k < self.children.len()
            invariant
                k <= self.children.len(),
                refs_view(out@) == self@.commands + flat_children(
                    self@.children.take(k as int),
                ),
            decreases self.children.len() - k,
        {
            let mut sub = self.children[k].all_commands();
            proof {
                lemma_group_view(*self);
                let next = self@.children.take(k + 1);
                assert(next.drop_last() =~= self@.children.take(k as int));
                assert(next.last() == self.children@[k as int]@);
            }
            let ghost before = out@;
            let ghost added = sub@;
            out.append(&mut sub);
            assert(refs_view(out@) =~= refs_view(before) + refs_view(added));
            k += 1;
        }
        proof {
            lemma_group_view(*self);
            assert(self@.children.take(k as int) =~= self@.children);
        }
        out
    }
}

} // verus!
