use vstd::prelude::*;

verus! {

/// What the websocket server reports on a poll.
pub enum ServerEvent {
    /// A peer connected.
    Connect(usize),
    /// A peer sent a text message.
    Text(usize, String),
    /// A peer sent a binary message.
    Binary(usize, Vec<u8>),
    /// A peer sent something else.
    Other(usize),
    /// Nothing is waiting.
    Idle,
    /// The server has stopped.
    Disconnected,
}

/// What a game does next, on an event of its server.
pub enum LoopAction {
    /// Do nothing.
    Nothing,
    /// Note that the peer connected.
    LogConnect(usize),
    /// Handle the peer's text message.
    HandleText(usize, String),
    /// Send the peer's binary message back to it.
    Echo(usize, Vec<u8>),
    /// Wait this many milliseconds, then update the game.
    SleepThenUpdate(u64),
}

/// What a game does on `ev`: text is handled, binary data echoed, an idle
/// server means a pause of 33 milliseconds and a tick of the game, and
/// anything else is let pass.
pub open spec fn loop_action(ev: ServerEvent) -> LoopAction {
    match ev {
        ServerEvent::Connect(peer) => LoopAction::LogConnect(peer),
        ServerEvent::Text(peer, msg) => LoopAction::HandleText(peer, msg),
        ServerEvent::Binary(peer, data) => LoopAction::Echo(peer, data),
        ServerEvent::Other(_) => LoopAction::Nothing,
        ServerEvent::Idle => LoopAction::SleepThenUpdate(33),
        ServerEvent::Disconnected => LoopAction::Nothing,
    }
}

/// What a game does next on the event `ev` of its server.
pub fn next_action(ev: ServerEvent) -> (a: LoopAction)
    ensures
        a == loop_action(ev),
        ev matches ServerEvent::Text(peer, msg) ==> a == LoopAction::HandleText(peer, msg),
        ev matches ServerEvent::Binary(peer, data) ==> a == LoopAction::Echo(peer, data),
        ev matches ServerEvent::Connect(peer) ==> a == LoopAction::LogConnect(peer),
        ev is Idle ==> a == LoopAction::SleepThenUpdate(33),
        ev is Other || ev is Disconnected ==> a is Nothing,
{
    match ev {
        ServerEvent::Connect(peer) => LoopAction::LogConnect(peer),
        ServerEvent::Text(peer, msg) => LoopAction::HandleText(peer, msg),
        ServerEvent::Binary(peer, data) => LoopAction::Echo(peer, data),
        ServerEvent::Other(_) => LoopAction::Nothing,
        ServerEvent::Idle => LoopAction::SleepThenUpdate(33),
        ServerEvent::Disconnected => LoopAction::Nothing,
    }
}

} // verus!
