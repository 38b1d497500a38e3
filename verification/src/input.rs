//! From one frame of raw input to the commands that it asks for.
use crate::session::Command;
use vstd::prelude::*;

verus! {

/// What the keyboard, the filter box and the mouse reported in one frame.
#[derive(Clone, Debug, PartialEq, Eq)]
pub struct InputSnapshot {
    /// Escape is held down.
    pub escape_down: bool,
    /// Alt is held down.
    pub alt: bool,
    pub arrow_up_pressed: bool,
    pub arrow_down_pressed: bool,
    pub home_pressed: bool,
    pub arrow_left_pressed: bool,
    pub arrow_right_pressed: bool,
    pub enter_pressed: bool,
    /// The text of the filter box, where typing or deleting changed it.
    pub edited_filter: Option<String>,
    /// The index of the row that was clicked, if one was.
    pub clicked_row: Option<usize>,
    /// The click was a double click.
    pub double_clicked: bool,
}

impl InputSnapshot {
    /// A frame in which nothing was pressed, typed or clicked. It asks for
    /// no command.
    pub fn quiet() -> (input: InputSnapshot)
        ensures
            input == (InputSnapshot {
                escape_down: false,
                alt: false,
                arrow_up_pressed: false,
                arrow_down_pressed: false,
                home_pressed: false,
                arrow_left_pressed: false,
                arrow_right_pressed: false,
                enter_pressed: false,
                edited_filter: None,
                clicked_row: None,
                double_clicked: false,
            }),
            commands_for(input).len() == 0,
    {
        proof {
            reveal(when);
        }
        InputSnapshot {
            escape_down: false,
            alt: false,
            arrow_up_pressed: false,
            arrow_down_pressed: false,
            home_pressed: false,
            arrow_left_pressed: false,
            arrow_right_pressed: false,
            enter_pressed: false,
            edited_filter: None,
            clicked_row: None,
            double_clicked: false,
        }
    }
}

/// `command` if `asked`, else nothing.
#[verifier::opaque]
pub open spec fn when(asked: bool, command: Command) -> Seq<Command> {
    if asked {
        seq![command]
    } else {
        Seq::empty()
    }
}

/// The command that replaces the filter, where the filter box changed.
pub open spec fn filter_commands(edited_filter: Option<String>) -> Seq<Command> {
    match edited_filter {
        Some(text) => seq![Command::SetFilter(text)],
        None => Seq::empty(),
    }
}

/// The command that selects the clicked row, where a row was clicked.
pub open spec fn click_commands(clicked_row: Option<usize>) -> Seq<Command> {
    match clicked_row {
        Some(row) => seq![Command::Select(row)],
        None => Seq::empty(),
    }
}

/// The commands of one frame, in the order in which they apply.
///
/// Escape leaves. The arrows move the selection by one row, Home selects
/// the first row, Alt with the left or right arrow steps back or forward. A
/// changed filter box replaces the filter. A click selects its row, and a
/// click or Enter enters the selected row; with Alt held, or on a double
/// click, the row is opened even where it is a directory.
pub open spec fn commands_for(input: InputSnapshot) -> Seq<Command> {
    when(input.escape_down, Command::Quit) + when(
        input.arrow_up_pressed,
        Command::MoveSelection(-1i64),
    ) + when(input.arrow_down_pressed, Command::MoveSelection(1i64)) + when(
        input.home_pressed,
        Command::JumpToStart,
    ) + when(input.alt && input.arrow_left_pressed, Command::Back) + when(
        input.alt && input.arrow_right_pressed,
        Command::Forward,
    ) + filter_commands(input.edited_filter) + click_commands(input.clicked_row) + when(
        input.enter_pressed || input.clicked_row is Some,
        Command::Enter { force_open: input.alt || input.double_clicked },
    )
}

/// Appends `command` if it was asked for.
fn push_when(commands: &mut Vec<Command>, asked: bool, command: Command)
    ensures
        final(commands)@ == old(commands)@ + when(asked, command),
{
    if asked {
        commands.push(command);
    }
    assert(commands@ =~= old(commands)@ + when(asked, command)) by {
        reveal(when);
    }
}

/// Appends the command of a changed filter box.
fn push_filter(commands: &mut Vec<Command>, edited_filter: Option<String>)
    ensures
        final(commands)@ == old(commands)@ + filter_commands(edited_filter),
{
    match edited_filter {
        Some(text) => {
            commands.push(Command::SetFilter(text));
        },
        None => {},
    }
    assert(commands@ =~= old(commands)@ + filter_commands(edited_filter));
}

/// Appends the command of a click.
fn push_click(commands: &mut Vec<Command>, clicked_row: Option<usize>)
    ensures
        final(commands)@ == old(commands)@ + click_commands(clicked_row),
{
    match clicked_row {
        Some(row) => {
            commands.push(Command::Select(row));
        },
        None => {},
    }
    assert(commands@ =~= old(commands)@ + click_commands(clicked_row));
}

/// Translates one frame of input into its commands.
pub fn translate(input: InputSnapshot) -> (commands: Vec<Command>)
    ensures
        commands@ == commands_for(input),
{
    let mut commands: Vec<Command> = Vec::new();
    push_when(&mut commands, input.escape_down, Command::Quit);
    assert(commands@ == when(input.escape_down, Command::Quit)) by {
        assert(Seq::<Command>::empty() + when(input.escape_down, Command::Quit) =~= when(
            input.escape_down,
            Command::Quit,
        ));
    }
    push_when(&mut commands, input.arrow_up_pressed, Command::MoveSelection(-1i64));
    push_when(&mut commands, input.arrow_down_pressed, Command::MoveSelection(1i64));
    push_when(&mut commands, input.home_pressed, Command::JumpToStart);
    push_when(&mut commands, input.alt && input.arrow_left_pressed, Command::Back);
    push_when(&mut commands, input.alt && input.arrow_right_pressed, Command::Forward);
    let clicked = input.clicked_row.is_some();
    let force_open = input.alt || input.double_clicked;
    push_filter(&mut commands, input.edited_filter);
    push_click(&mut commands, input.clicked_row);
    push_when(&mut commands, input.enter_pressed || clicked, Command::Enter { force_open });
    commands
}

} // verus!
