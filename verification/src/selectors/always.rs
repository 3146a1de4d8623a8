use vstd::prelude::*;
use crate::commands::command::{commands_view, Command, CommandView};
use crate::selectors::SelectorError;

verus! {

/// The command runs unconditionally.
pub open spec fn always_on(c: CommandView) -> bool {
    c.auto.always == Some(true)
}

/// The test of the always-selector.
pub open spec fn always_pred() -> spec_fn(CommandView) -> bool {
    |c: CommandView| always_on(c)
}

/// The test of what the always-selector leaves.
pub open spec fn not_always_pred() -> spec_fn(CommandView) -> bool {
    |c: CommandView| !always_on(c)
}

/// Selects the commands that run unconditionally.
pub struct AlwaysSelector {}

impl AlwaysSelector {
    /// Splits `commands` into those with `always` on and the others, each
    /// part in the order of `commands`.
    pub fn split_active_commands(commands: Vec<Command>) -> (r: Result<
        (Vec<Command>, Vec<Command>),
        SelectorError,
    >)
        ensures
            r matches Ok((always, other)) && commands_view(always@) == commands_view(
                commands@,
            ).filter(always_pred()) && commands_view(other@) == commands_view(commands@).filter(
                not_always_pred(),
            ),
    {
        let ghost all = commands_view(commands@);
        let mut always: Vec<Command> = Vec::new();
        let mut other: Vec<Command> = Vec::new();
        let mut i: usize = 0;
        proof {
            reveal(Seq::filter);
            assert(all.take(0) =~= Seq::<CommandView>::empty());
            assert(commands_view(always@) =~= all.take(0).filter(always_pred()));
            assert(commands_view(other@) =~= all.take(0).filter(not_always_pred()));
        }
        while i < commands.len()
            invariant
                i <= commands.len(),
                all == commands_view(commands@),
                commands_view(always@) == all.take(i as int).filter(always_pred()),
                commands_view(other@) == all.take(i as int).filter(not_always_pred()),
            decreases commands.len() - i,
        {
            proof {
                reveal(Seq::filter);
                let next = all.take(i + 1);
                assert(next.drop_last() =~= all.take(i as int));
                assert(next.last() == commands@[i as int]@);
            }
            let on = match commands[i].auto.always {
                Some(b) => b,
                None => false,
            };
            if on {
                let ghost before = commands_view(always@);
                always.push(commands[i].clone());
                assert(commands_view(always@) =~= before.push(commands@[i as int]@));
            } else {
                let ghost before = commands_view(other@);
                other.push(commands[i].clone());
                assert(commands_view(other@) =~= before.push(commands@[i as int]@));
            }
            i += 1;
        }
        assert(all.take(i as int) =~= all);
        Ok((always, other))
    }
}

} // verus!
