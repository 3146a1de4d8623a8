use vstd::prelude::*;
use crate::commands::auto::{clone_strings, strs, Auto, AutoView};
use crate::commands::env::{clone_env, env_view, EnvView};

verus! {

/// Mathematical model of [`Command`].
pub struct CommandView {
    pub id: Seq<char>,
    pub name: Seq<char>,
    pub cmd: Seq<char>,
    pub cwd: Seq<char>,
    pub auto: AutoView,
    pub env: EnvView,
    pub depends_on: Seq<Seq<char>>,
    pub scrollback: Option<usize>,
}

/// A single executable task with its configuration and automation rules.
#[derive(Debug)]
pub struct Command {
    pub id: String,
    pub name: String,
    pub cmd: String,
    pub cwd: String,
    pub auto: Auto,
    pub env: Vec<(String, String)>,
    pub depends_on: Vec<String>,
    pub scrollback: Option<usize>,
}

impl View for Command {
    type V = CommandView;

    open spec fn view(&self) -> CommandView {
        CommandView {
            id: self.id@,
            name: self.name@,
            cmd: self.cmd@,
            cwd: self.cwd@,
            auto: self.auto@,
            env: env_view(self.env@),
            depends_on: strs(self.depends_on@),
            scrollback: self.scrollback,
        }
    }
}

/// The models of a list of commands.
pub open spec fn commands_view(v: Seq<Command>) -> Seq<CommandView> {
    Seq::new(v.len(), |i: int| v[i]@)
}

/// The models of a list of borrowed commands.
pub open spec fn refs_view(v: Seq<&Command>) -> Seq<CommandView> {
    Seq::new(v.len(), |i: int| v[i]@)
}

impl Clone for Command {
    fn clone(&self) -> (r: Self)
        ensures
            r@ == self@,
    {
        Command {
            id: self.id.clone(),
            name: self.name.clone(),
            cmd: self.cmd.clone(),
            cwd: self.cwd.clone(),
            auto: self.auto.clone(),
            env: clone_env(&self.env),
            depends_on: clone_strings(&self.depends_on),
            scrollback: self.scrollback,
        }
    }
}

impl Default for Command {
    fn default() -> (r: Self)
        ensures
            r@ == (CommandView {
                id: Seq::empty(),
                name: Seq::empty(),
                cmd: Seq::empty(),
                cwd: Seq::empty(),
                auto: AutoView {
                    watch: None,
                    git: None,
                    path: Seq::empty(),
                    regex: Seq::empty(),
                    always: None,
                },
                env: Seq::empty(),
                depends_on: Seq::empty(),
                scrollback: None,
            }),
    {
        let r = Command {
            id: String::new(),
            name: String::new(),
            cmd: String::new(),
            cwd: String::new(),
            auto: Auto::default(),
            env: Vec::new(),
            depends_on: Vec::new(),
            scrollback: None,
        };
        assert(env_view(r.env@) =~= Seq::empty());
        assert(strs(r.depends_on@) =~= Seq::<Seq<char>>::empty());
        r
    }
}

/// Copies a list of commands.
pub fn clone_commands(v: &Vec<Command>) -> (r: Vec<Command>)
    ensures
        commands_view(r@) == commands_view(v@),
{
    let mut r: Vec<Command> = Vec::new();
    let mut i: usize = 0;
    while i < v.len()
        invariant
            i <= v.len(),
            r@.len() == i,
            forall|j: int| 0 <= j < i ==> r@[j]@ == v@[j]@,
        decreases v.len() - i,
    {
        r.push(v[i].clone());
        i += 1;
    }
    assert(commands_view(r@) =~= commands_view(v@));
    r
}

/// Copies the commands that a list of references points at.
pub fn cloned(v: &Vec<&Command>) -> (r: Vec<Command>)
    ensures
        commands_view(r@) == refs_view(v@),
{
    let mut r: Vec<Command> = Vec::new();
    let mut i: usize = 0;
    while i < v.len()
        invariant
            i <= v.len(),
            r@.len() == i,
            forall|j: int| 0 <= j < i ==> r@[j]@ == v@[j]@,
        decreases v.len() - i,
    {
        r.push(v[i].clone());
        i += 1;
    }
    assert(commands_view(r@) =~= refs_view(v@));
    r
}

} // verus!
