//! The grammar: commands, options, positionals, and their mathematical views.

use vstd::prelude::*;

verus! {

/// A token of the command line, or any other string, as a sequence of characters.
pub type Text = Seq<char>;

/// A saved configuration. Only its name matters to completion.
#[derive(Debug)]
pub struct Profile {
    pub name: String,
}

/// How many argument tokens an option or a positional takes.
#[derive(Debug, PartialEq, Eq, Hash)]
pub enum ArgumentCount {
    Fixed(u64),
    AtMostOne(),
    AtLeastOne(),
    Any(),
}

/// What kind of value an option or a positional expects.
#[derive(Debug, PartialEq, Eq, Hash)]
pub enum ExpectedType {
    Unknown(),
    Profile(),
    Path(),
}

/// A positional argument of a command.
#[derive(Debug)]
pub struct Positional {
    pub arguments: ArgumentCount,
    pub expected_type: ExpectedType,
}

/// An option of a command, known under one or more names.
#[derive(Debug, PartialEq, Eq, Hash)]
pub struct Option_ {
    pub names: Vec<String>,
    pub values: Vec<String>,
    pub arguments: ArgumentCount,
    pub expected_type: ExpectedType,
}

/// A node of the grammar tree.
#[derive(Debug)]
pub struct Command {
    pub name: String,
    pub subcommands: Vec<Command>,
    pub positionals: Vec<Positional>,
    pub options: Vec<Option_>,
}

/// The mathematical content of an [`Option_`].
pub struct OptionView {
    pub names: Seq<Text>,
    pub values: Seq<Text>,
    pub arguments: ArgumentCount,
    pub expected_type: ExpectedType,
}

/// The mathematical content of a [`Command`]: the whole subtree below it.
pub struct CommandView {
    pub name: Text,
    pub subcommands: Seq<CommandView>,
    pub positionals: Seq<Positional>,
    pub options: Seq<OptionView>,
}

impl View for Profile {
    type V = Text;

    open spec fn view(&self) -> Text {
        self.name@
    }
}

impl DeepView for Profile {
    type V = Text;

    open spec fn deep_view(&self) -> Text {
        self.name@
    }
}

impl View for Option_ {
    type V = OptionView;

    open spec fn view(&self) -> OptionView {
        OptionView {
            names: self.names.deep_view(),
            values: self.values.deep_view(),
            arguments: self.arguments,
            expected_type: self.expected_type,
        }
    }
}

impl DeepView for Option_ {
    type V = OptionView;

    open spec fn deep_view(&self) -> OptionView {
        self.view()
    }
}

impl Command {
    /// The content of the subtree rooted at this command.
    pub open spec fn content(&self) -> CommandView
        decreases self,
    {
        CommandView {
            name: self.name@,
            subcommands: Seq::new(
                self.subcommands@.len(),
                |i: int|
                    if 0 <= i < self.subcommands@.len() {
                        self.subcommands@[i].content()
                    } else {
                        arbitrary()
                    },
            ),
            positionals: self.positionals@,
            options: self.options.deep_view(),
        }
    }

    /// The view of a command, field by field.
    pub proof fn lemma_view(&self)
        ensures
            self@.name == self.name@,
            self@.positionals == self.positionals@,
            self@.options == self.options.deep_view(),
            self@.subcommands.len() == self.subcommands@.len(),
            forall|i: int|
                0 <= i < self.subcommands@.len() ==> #[trigger] self@.subcommands[i]
                    == self.subcommands@[i]@,
    {
    }
}

impl View for Command {
    type V = CommandView;

    open spec fn view(&self) -> CommandView {
        self.content()
    }
}

impl Default for ArgumentCount {
    fn default() -> (r: ArgumentCount)
        ensures
            r == ArgumentCount::Fixed(0),
    {
        ArgumentCount::Fixed(0)
    }
}

impl Default for ExpectedType {
    fn default() -> (r: ExpectedType)
        ensures
            r == ExpectedType::Unknown(),
    {
        ExpectedType::Unknown()
    }
}

} // verus!
