//! The command line: which command the arguments ask for, and the choices
//! typed in answer to a numbered list.
use vstd::prelude::*;
use crate::text::{
    decimal, is_digit, lemma_decimal_shape, lemma_parse_decimal, lemma_trim_end_concat,
    lemma_trim_newline, lemma_trim_start_keeps, parse_u64, parse_u64_text, same_text, trim, trimmed,
    views,
};

verus! {

/// What the program was asked to do.
pub enum Command {
    /// No command: print the usage.
    Help,
    /// Run the receiving daemon.
    Daemon,
    /// Send the file at this path from the terminal.
    Send(String),
    /// `send` without a path.
    SendWithoutPath,
    /// List the mDNS services on the network.
    Scan,
    /// Send the file at this path through the dialog.
    Gui(String),
    /// `gui` without a path.
    GuiWithoutPath,
    /// A command the program does not know.
    Unknown(String),
}

/// The mathematical form of [`Command`].
pub enum CommandView {
    Help,
    Daemon,
    Send(Seq<char>),
    SendWithoutPath,
    Scan,
    Gui(Seq<char>),
    GuiWithoutPath,
    Unknown(Seq<char>),
}

impl View for Command {
    type V = CommandView;

    open spec fn view(&self) -> CommandView {
        match self {
            Command::Help => CommandView::Help,
            Command::Daemon => CommandView::Daemon,
            Command::Send(p) => CommandView::Send(p@),
            Command::SendWithoutPath => CommandView::SendWithoutPath,
            Command::Scan => CommandView::Scan,
            Command::Gui(p) => CommandView::Gui(p@),
            Command::GuiWithoutPath => CommandView::GuiWithoutPath,
            Command::Unknown(c) => CommandView::Unknown(c@),
        }
    }
}

/// The command that the arguments (the program name first) ask for.
pub open spec fn command_of(args: Seq<Seq<char>>) -> CommandView {
    if args.len() < 2 {
        CommandView::Help
    } else if args[1] == "daemon"@ {
        CommandView::Daemon
    } else if args[1] == "send"@ {
        if args.len() < 3 {
            CommandView::SendWithoutPath
        } else {
            CommandView::Send(args[2])
        }
    } else if args[1] == "scan"@ {
        CommandView::Scan
    } else if args[1] == "gui"@ {
        if args.len() < 3 {
            CommandView::GuiWithoutPath
        } else {
            CommandView::Gui(args[2])
        }
    } else {
        CommandView::Unknown(args[1])
    }
}

/// Reads the command from the program's arguments.
pub fn parse_command(args: &Vec<String>) -> (r: Command)
    ensures
        r@ == command_of(views(args@)),
{
    if args.len() < 2 {
        return Command::Help;
    }
    proof {
        assert(views(args@)[1] == args@[1]@);
        if args@.len() >= 3 {
            assert(views(args@)[2] == args@[2]@);
        }
    }
    let cmd = args[1].as_str();
    if same_text(cmd, "daemon") {
        Command::Daemon
    } else if same_text(cmd, "send") {
        if args.len() < 3 {
            Command::SendWithoutPath
        } else {
            Command::Send(args[2].clone())
        }
    } else if same_text(cmd, "scan") {
        Command::Scan
    } else if same_text(cmd, "gui") {
        if args.len() < 3 {
            Command::GuiWithoutPath
        } else {
            Command::Gui(args[2].clone())
        }
    } else {
        Command::Unknown(args[1].clone())
    }
}

/// The entry a typed answer picks from a list of `count` numbered from 1:
/// the trimmed answer read as a number in `1..=count`, counted from 0.
/// (Any number that fits a `u64` but not a `usize` is above `count` anyway.)
pub open spec fn selection(input: Seq<char>, count: usize) -> Option<usize> {
    match parse_u64(trim(input)) {
        Some(n) => if 1 <= n <= count {
            Some((n - 1) as usize)
        } else {
            None
        },
        None => None,
    }
}

/// Reads a typed choice from a numbered list of `count` entries.
pub fn parse_selection(input: &str, count: usize) -> (r: Option<usize>)
    ensures
        r == selection(input@, count),
{
    let t = trimmed(input);
    match parse_u64_text(t.as_str()) {
        Some(n) => if 1 <= n && n <= count as u64 {
            Some((n - 1) as usize)
        } else {
            None
        },
        None => None,
    }
}


/// Typing the number a list shows next to an entry, then Enter, picks that
/// entry.
pub proof fn law_listed_number_selects(k: usize, count: usize)
    requires
        k < count,
    ensures
        selection(decimal((k + 1) as nat) + "\n"@, count) == Some(k),
{
    reveal_strlit("\n");
    let n = (k + 1) as u64;
    let d = decimal(n as nat);
    lemma_decimal_shape(n as nat);
    lemma_parse_decimal(n);
    assert(is_digit(d[d.len() - 1]));
    assert(is_digit(d[0]));
    lemma_trim_end_concat(d, seq!['\n']);
    lemma_trim_newline();
    assert(d + Seq::<char>::empty() =~= d);
    let line = d + "\n"@;
    assert(line =~= d + seq!['\n']);
    assert(line[0] == d[0]);
    lemma_trim_start_keeps(line);
}

} // verus!
