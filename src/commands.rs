//! The command tree: nodes are sub-menus, leaves run a command task. Each
//! entry is reached from its parent by its shortcut.

use vstd::prelude::*;
use crate::bindings::{parse_shortcut, Shortcut};
use crate::template::{CommandTask, CommandTaskParseError};

verus! {

/// A sub-menu: its entries are listed in order.
#[derive(Debug, PartialEq, Eq)]
pub struct CommandNode {
    pub shortcut: Shortcut,
    pub name: String,
    pub children: Vec<Command>,
}

/// An entry that runs a command.
#[derive(Debug, Clone, PartialEq, Eq)]
pub struct CommandLeaf {
    pub shortcut: Shortcut,
    pub name: String,
    pub cmd: CommandTask,
}

/// An entry of the command tree.
#[derive(Debug, PartialEq, Eq)]
pub enum Command {
    Node(CommandNode),
    Leaf(CommandLeaf),
}

/// What is shown of an entry: its shortcut and its name.
#[derive(Debug, Clone, PartialEq, Eq)]
pub struct CommandDisplay {
    pub shortcut: Shortcut,
    pub name: String,
}

impl View for CommandDisplay {
    type V = (Shortcut, Seq<char>);

    open spec fn view(&self) -> (Shortcut, Seq<char>) {
        (self.shortcut, self.name@)
    }
}

/// Why an entry of the configuration was refused.
#[derive(Debug, Clone, Copy, PartialEq, Eq, Structural)]
pub enum ConfigError {
    /// The shortcut is not a valid shortcut identifier.
    InvalidShortcut,
    /// The command could not be read.
    InvalidCommand,
    /// The entry has both a command and children.
    AmbiguousEntry,
    /// The entry has neither a command nor children.
    IncompleteEntry,
}

impl Command {
    pub open spec fn spec_shortcut(&self) -> Shortcut {
        match self {
            Command::Node(n) => n.shortcut,
            Command::Leaf(l) => l.shortcut,
        }
    }

    pub open spec fn spec_name(&self) -> Seq<char> {
        match self {
            Command::Node(n) => n.name@,
            Command::Leaf(l) => l.name@,
        }
    }
}

/// What is shown of an entry.
pub open spec fn display_of(c: Command) -> (Shortcut, Seq<char>) {
    (c.spec_shortcut(), c.spec_name())
}

/// The listing of an entry: a leaf lists itself, a node its children.
pub open spec fn displayable(c: Command) -> Seq<(Shortcut, Seq<char>)> {
    match c {
        Command::Node(n) => n.children@.map_values(|child: Command| display_of(child)),
        Command::Leaf(_) => seq![display_of(c)],
    }
}

/// The first entry of `children` bound to `sc`, if any.
pub open spec fn find_in(children: Seq<Command>, sc: Shortcut) -> Option<Command>
    decreases children.len(),
{
    if children.len() == 0 {
        None
    } else if children[0].spec_shortcut() == sc {
        Some(children[0])
    } else {
        find_in(children.drop_first(), sc)
    }
}

/// The child of `c` bound to `sc`; a leaf has no children.
pub open spec fn find_child(c: Command, sc: Shortcut) -> Option<Command> {
    match c {
        Command::Node(n) => find_in(n.children@, sc),
        Command::Leaf(_) => None,
    }
}

proof fn lemma_find_in_index(children: Seq<Command>, sc: Shortcut, i: int)
    requires
        0 <= i <= children.len(),
        forall|j: int| 0 <= j < i ==> (#[trigger] children[j]).spec_shortcut() != sc,
    ensures
        find_in(children, sc) == find_in(children.subrange(i, children.len() as int), sc),
    decreases i,
{
    if i > 0 {
        assert forall|j: int| 0 <= j < i - 1 implies (
        #[trigger] children.drop_first()[j]).spec_shortcut() != sc by {
            assert(children.drop_first()[j] == children[j + 1]);
        }
        lemma_find_in_index(children.drop_first(), sc, i - 1);
        assert(children.drop_first().subrange(i - 1, children.len() - 1) =~= children.subrange(
            i,
            children.len() as int,
        ));
    } else {
        assert(children.subrange(0, children.len() as int) =~= children);
    }
}

/// An entry found for a shortcut is bound to that shortcut.
pub proof fn lemma_find_in_shortcut(children: Seq<Command>, sc: Shortcut)
    ensures
        find_in(children, sc) matches Some(c) ==> c.spec_shortcut() == sc,
    decreases children.len(),
{
    if children.len() > 0 && children[0].spec_shortcut() != sc {
        lemma_find_in_shortcut(children.drop_first(), sc);
    }
}

impl CommandDisplay {
    /// What is shown of `command`.
    pub fn from(command: &Command) -> (r: CommandDisplay)
        ensures
            r@ == display_of(*command),
    {
        match command {
            Command::Node(node) => CommandDisplay { shortcut: node.shortcut, name: node.name.clone() },
            Command::Leaf(leaf) => CommandDisplay { shortcut: leaf.shortcut, name: leaf.name.clone() },
        }
    }
}

impl Command {
    /// Builds an entry of the configuration: one with children and no command
    /// is a node, one with a command and no children a leaf. The shortcut is
    /// read first; an entry with both or neither is refused.
    pub fn from_entry(
        shortcut: &str,
        name: String,
        cmd: Option<&str>,
        children: Option<Vec<Command>>,
    ) -> (r: Result<Command, ConfigError>)
        ensures
            match parse_shortcut(shortcut@) {
                None => r == Err::<Command, ConfigError>(ConfigError::InvalidShortcut),
                Some(sc) => match (cmd, children) {
                    (Some(_), Some(_)) => r == Err::<Command, ConfigError>(
                        ConfigError::AmbiguousEntry,
                    ),
                    (None, None) => r == Err::<Command, ConfigError>(
                        ConfigError::IncompleteEntry,
                    ),
                    (None, Some(ch)) => r == Ok::<Command, ConfigError>(
                        Command::Node(CommandNode { shortcut: sc, name, children: ch }),
                    ),
                    (Some(c), None) => r matches Ok(Command::Leaf(l)) && l.shortcut == sc
                        && l.name == name && l.cmd.base@ == c@ && l.cmd.wf() && forall|k: int|
                        0 <= k < l.cmd.variables@.len() ==> (
                        #[trigger] l.cmd.variables@[k]).default_value is None,
                },
            },
    {
        let sc = match Shortcut::from_str(shortcut) {
            Ok(sc) => sc,
            Err(_) => {
                return Err(ConfigError::InvalidShortcut);
            },
        };
        match (cmd, children) {
            (Some(_), Some(_)) => Err(ConfigError::AmbiguousEntry),
            (None, None) => Err(ConfigError::IncompleteEntry),
            (None, Some(ch)) => Ok(Command::Node(CommandNode { shortcut: sc, name, children: ch })),
            (Some(c), None) => match CommandTask::from_str(c) {
                Ok(task) => Ok(Command::Leaf(CommandLeaf { shortcut: sc, name, cmd: task })),
                Err(CommandTaskParseError) => Err(ConfigError::InvalidCommand),
            },
        }
    }

    /// The shortcut that reaches this entry from its parent.
    pub fn shortcut(&self) -> (r: &Shortcut)
        ensures
            *r == self.spec_shortcut(),
    {
        match self {
            Command::Leaf(command_leaf) => &command_leaf.shortcut,
            Command::Node(command_node) => &command_node.shortcut,
        }
    }

    /// The name shown for this entry.
    pub fn name(&self) -> (r: &String)
        ensures
            r@ == self.spec_name(),
    {
        match self {
            Command::Leaf(command_leaf) => &command_leaf.name,
            Command::Node(command_node) => &command_node.name,
        }
    }

    /// The flat listing shown at this entry: a leaf lists itself, a node each
    /// of its children, in order, without descending further.
    pub fn displayable_children(&self) -> (r: Vec<CommandDisplay>)
        ensures
            r@.map_values(|d: CommandDisplay| d@) == displayable(*self),
    {
        match self {
            Command::Leaf(_) => {
                let r = vec![CommandDisplay::from(self)];
                proof {
                    assert(r@.map_values(|d: CommandDisplay| d@) =~= displayable(*self));
                }
                r
            },
            Command::Node(command_node) => {
                let children = &command_node.children;
                let mut r: Vec<CommandDisplay> = Vec::new();
                let mut i: usize = 0;
                while i < children.len()
                    invariant
                        i <= children@.len(),
                        r@.map_values(|d: CommandDisplay| d@) == children@.subrange(
                            0,
                            i as int,
                        ).map_values(|child: Command| display_of(child)),
                    decreases children@.len() - i,
                {
                    let d = CommandDisplay::from(&children[i]);
                    let ghost before = r@;
                    r.push(d);
                    proof {
                        let f = |d: CommandDisplay| d@;
                        let g = |child: Command| display_of(child);
                        assert(r@.map_values(f) =~= before.map_values(f).push(d@));
                        assert(children@.subrange(0, i + 1).map_values(g) =~= children@.subrange(
                            0,
                            i as int,
                        ).map_values(g).push(display_of(children@[i as int])));
                    }
                    i = i + 1;
                }
                proof {
                    assert(children@.subrange(0, i as int) =~= children@);
                }
                r
            },
        }
    }

    /// The first child bound to `shortcut`; a leaf has none.
    pub fn find_child_for_shortcut(&self, shortcut: &Shortcut) -> (r: Option<&Command>)
        ensures
            match find_child(*self, *shortcut) {
                Some(c) => r is Some && *r->0 == c,
                None => r is None,
            },
    {
        match self {
            Command::Leaf(_) => None,
            Command::Node(node) => {
                let children = &node.children;
                let mut i: usize = 0;
                while i < children.len()
                    invariant
                        i <= children@.len(),
                        find_child(*self, *shortcut) == find_in(children@, *shortcut),
                        forall|j: int|
                            0 <= j < i ==> (#[trigger] children@[j]).spec_shortcut() != *shortcut,
                    decreases children@.len() - i,
                {
                    if *children[i].shortcut() == *shortcut {
                        proof {
                            lemma_find_in_index(children@, *shortcut, i as int);
                            assert(children@.subrange(i as int, children@.len() as int)[0]
                                == children@[i as int]);
                        }
                        return Some(&children[i]);
                    }
                    i = i + 1;
                }
                proof {
                    lemma_find_in_index(children@, *shortcut, i as int);
                }
                None
            },
        }
    }
}

} // verus!
