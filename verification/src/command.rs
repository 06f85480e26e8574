use vstd::prelude::*;

verus! {

/// A text message for the connected peers: to one peer, or to all.
pub enum Command {
    SendPeer(usize, String),
    SendAll(String),
}

/// What a `Command` says: its addressee and its text.
pub enum CommandView {
    SendPeer(usize, Seq<char>),
    SendAll(Seq<char>),
}

impl View for Command {
    type V = CommandView;

    open spec fn view(&self) -> CommandView {
        match self {
            Command::SendPeer(peer, text) => CommandView::SendPeer(*peer, text@),
            Command::SendAll(text) => CommandView::SendAll(text@),
        }
    }
}

/// The views of a sequence of commands.
pub open spec fn commands_view(cmds: Seq<Command>) -> Seq<CommandView> {
    cmds.map_values(|c: Command| c@)
}

} // verus!
