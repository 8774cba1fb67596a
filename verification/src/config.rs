//! The declarative configuration consumed by the rewriting engine: flag
//! aliases, post-processor trigger conditions, and per-command settings.
//! All configuration is immutable input; the library only reads it.

use vstd::prelude::*;

verus! {

/// A short or alternate flag form (`alias`) rewritten to its canonical
/// expansion (`flag`) before any further processing.
pub struct FlagAlias {
    pub flag: String,
    pub alias: String,
}

/// The predicate kind of a trigger condition.  Exactly one kind applies to
/// each condition, enforced by the closed enum.
pub enum ConditionKind {
    /// The flag's value equals the given string.
    Is(String),
    /// The flag is present and its value differs from the given string.
    IsNot(String),
    /// The flag token is present, value irrelevant.
    IsSet,
}

/// A predicate over one argument position: the flag token and its
/// associated value, whether joined by `=` or given as the next token.
pub struct PostProcessorCondition {
    pub flag: String,
    pub kind: ConditionKind,
}

/// A post-processor trigger: an ordered disjunction of conditions
/// (`when_any`, first match wins), replacement tokens spliced in place of
/// the consumed flag (`set_flags`), and the downstream command (`run`,
/// program first, then its arguments, where the literal token `$VALUE`
/// stands for the captured value).  An empty `when_any` never matches; an
/// empty `run` means rewrite only, no downstream command.
pub struct PostProcessor {
    pub when_any: Vec<PostProcessorCondition>,
    pub set_flags: Option<Vec<String>>,
    pub run: Vec<String>,
}

/// Settings for one wrapped command, looked up by `name`.
pub struct CommandConfig {
    pub name: String,
    pub exe: String,
    pub flags_aliases: Vec<FlagAlias>,
    pub post_processors: Vec<PostProcessor>,
}

/// The whole configuration: one entry per wrapped command.
pub struct ConfigFile {
    pub commands: Vec<CommandConfig>,
}

/// The first command whose name equals `name`, scanning in declaration
/// order.
pub open spec fn first_command_match(cmds: Seq<CommandConfig>, name: Seq<char>) -> Option<
    CommandConfig,
>
    decreases cmds.len(),
{
    if cmds.len() == 0 {
        None
    } else if cmds[0].name@ == name {
        Some(cmds[0])
    } else {
        first_command_match(cmds.drop_first(), name)
    }
}

impl ConfigFile {
    /// Looks up the configuration of the named command: the first entry
    /// with that name, or `None` when no entry has it.
    pub fn get_command<'a>(&'a self, name: &str) -> (r: Option<&'a CommandConfig>)
        ensures
            match r {
                Some(c) => first_command_match(self.commands@, name@) == Some(*c),
                None => first_command_match(self.commands@, name@) is None,
            },
    {
        let n = self.commands.len();
        let mut i: usize = 0;
        proof {
            assert(self.commands@.skip(0) =~= self.commands@);
        }
        while i < n
            invariant
                n == self.commands@.len(),
                i <= n,
                first_command_match(self.commands@, name@) == first_command_match(
                    self.commands@.skip(i as int),
                    name@,
                ),
            decreases n - i,
        {
            let c = &self.commands[i];
            if crate::strutil::str_eq(c.name.as_str(), name) {
                proof {
                    assert(self.commands@.skip(i as int)[0] == self.commands@[i as int]);
                }
                return Some(c);
            }
            proof {
                assert(self.commands@.skip(i as int).drop_first() =~= self.commands@.skip(
                    i as int + 1,
                ));
                assert(self.commands@.skip(i as int)[0] == self.commands@[i as int]);
            }
            i += 1;
        }
        proof {
            assert(self.commands@.skip(n as int) =~= Seq::<CommandConfig>::empty());
        }
        None
    }
}

} // verus!
