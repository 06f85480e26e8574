use vstd::prelude::*;

use crate::command::{Command, CommandView, commands_view};

verus! {

/// The kinds of component that the entities of the first game hold.
#[derive(PartialEq, Eq, Structural, Clone, Copy)]
pub enum ComponentKind {
    /// Where the player last clicked.
    Input,
    /// Where the entity is.
    Position,
    /// How the entity is drawn.
    ObjectView,
}

/// The type id under which an entity files a component of `kind`.
pub open spec fn kind_type_id(kind: ComponentKind) -> i32 {
    match kind {
        ComponentKind::Input => 1,
        ComponentKind::Position => 2,
        ComponentKind::ObjectView => 3,
    }
}

/// The type id under which an entity files a component of `kind`: 1 for
/// input, 2 for position, 3 for the object view.
pub fn type_id(kind: ComponentKind) -> (id: i32)
    ensures
        id == kind_type_id(kind),
        kind == ComponentKind::Input ==> id == 1,
        kind == ComponentKind::Position ==> id == 2,
        kind == ComponentKind::ObjectView ==> id == 3,
{
    match kind {
        ComponentKind::Input => 1,
        ComponentKind::Position => 2,
        ComponentKind::ObjectView => 3,
    }
}

/// Law: distinct kinds of component are filed under distinct type ids, so
/// an entity can hold one of each.
pub proof fn lemma_type_ids_distinct(a: ComponentKind, b: ComponentKind)
    ensures
        kind_type_id(a) == kind_type_id(b) <==> a == b,
{
}

/// The commands that set up the buttons when a player starts: all three
/// are hidden, on every peer's screen.
pub open spec fn start_commands_view() -> Seq<CommandView> {
    seq![
        CommandView::SendAll("script setup_button(1,false,'')"@),
        CommandView::SendAll("script setup_button(2,false,'')"@),
        CommandView::SendAll("script setup_button(3,false,'')"@),
    ]
}

/// The commands that set up the buttons when a player starts.
pub fn start_commands() -> (cmds: Vec<Command>)
    ensures
        commands_view(cmds@) == start_commands_view(),
        commands_view(cmds@) == seq![
            CommandView::SendAll("script setup_button(1,false,'')"@),
            CommandView::SendAll("script setup_button(2,false,'')"@),
            CommandView::SendAll("script setup_button(3,false,'')"@),
        ],
{
    let mut cmds: Vec<Command> = Vec::new();
    cmds.push(Command::SendAll(String::from_str("script setup_button(1,false,'')")));
    cmds.push(Command::SendAll(String::from_str("script setup_button(2,false,'')")));
    cmds.push(Command::SendAll(String::from_str("script setup_button(3,false,'')")));
    assert(commands_view(cmds@) =~= start_commands_view());
    cmds
}

/// The last position at which `tokens` holds `Some(tok)`.
pub open spec fn last_index_of_token(tokens: Seq<Option<usize>>, tok: usize) -> Option<int>
    decreases tokens.len(),
{
    if tokens.len() == 0 {
        None
    } else if tokens.last() == Some(tok) {
        Some(tokens.len() - 1)
    } else {
        last_index_of_token(tokens.drop_last(), tok)
    }
}

/// Law: the last position at which `tokens` holds `Some(tok)` holds it, and
/// no later one does; where there is none, no position holds it.
pub proof fn lemma_last_index_of_token(tokens: Seq<Option<usize>>, tok: usize)
    ensures
        last_index_of_token(tokens, tok) matches Some(i) ==> 0 <= i < tokens.len() && tokens[i] == Some(
            tok,
        ) && forall|j: int| i < j < tokens.len() ==> tokens[j] != Some(tok),
        last_index_of_token(tokens, tok) is None ==> forall|j: int|
            0 <= j < tokens.len() ==> tokens[j] != Some(tok),
    decreases tokens.len(),
{
    if tokens.len() > 0 {
        let rest = tokens.drop_last();
        lemma_last_index_of_token(rest, tok);
        assert forall|j: int| 0 <= j < rest.len() implies rest[j] == tokens[j] by {}
    }
}

/// The entity whose input component belongs to peer `tok`: the last one
/// whose entry in `tokens` (one per entity, in order: the peer of its input
/// component, where it has one) is `tok`.
pub fn find_by_token(tokens: &Vec<Option<usize>>, tok: usize) -> (found: Option<usize>)
    ensures
        found matches Some(i) ==> last_index_of_token(tokens@, tok) == Some(i as int),
        found is None ==> last_index_of_token(tokens@, tok) is None,
        found matches Some(i) ==> i < tokens@.len() && tokens@[i as int] == Some(tok) && forall|j: int|
            i < j < tokens@.len() ==> tokens@[j] != Some(tok),
        found is None ==> forall|j: int| 0 <= j < tokens@.len() ==> tokens@[j] != Some(tok),
{
    proof {
        lemma_last_index_of_token(tokens@, tok);
    }
    let mut found: Option<usize> = None;
    let n = tokens.len();
    for i in 0..n
        invariant
            n == tokens@.len(),
            found matches Some(j) ==> last_index_of_token(tokens@.take(i as int), tok) == Some(j as int),
            found is None ==> last_index_of_token(tokens@.take(i as int), tok) is None,
    {
        assert(tokens@.take(i + 1).drop_last() =~= tokens@.take(i as int));
        match tokens[i] {
            Some(t) => {
                if t == tok {
                    found = Some(i);
                }
            },
            None => {},
        }
    }
    assert(tokens@.take(n as int) =~= tokens@);
    found
}

/// The entities whose input component belongs to peer `tok`, in order:
/// those whose entry in `tokens` (one per entity) is `tok`.
pub fn entities_of_peer(tokens: &Vec<Option<usize>>, tok: usize) -> (idx: Vec<usize>)
    ensures
        forall|j: int| 0 <= j < idx@.len() ==> idx@[j] < tokens@.len() && tokens@[idx@[j] as int] == Some(tok),
        forall|j: int, k: int| 0 <= j < k < idx@.len() ==> idx@[j] < idx@[k],
        forall|i: int| 0 <= i < tokens@.len() && tokens@[i] == Some(tok) ==> idx@.contains(i as usize),
{
    let mut idx: Vec<usize> = Vec::new();
    let n = tokens.len();
    for i in 0..n
        invariant
            n == tokens@.len(),
            forall|j: int| 0 <= j < idx@.len() ==> idx@[j] < i && tokens@[idx@[j] as int] == Some(tok),
            forall|j: int, k: int| 0 <= j < k < idx@.len() ==> idx@[j] < idx@[k],
            forall|m: int| 0 <= m < i && tokens@[m] == Some(tok) ==> idx@.contains(m as usize),
    {
        let ghost before = idx@;
        match tokens[i] {
            Some(t) => {
                if t == tok {
                    idx.push(i);
                }
            },
            None => {},
        }
        assert forall|m: int| 0 <= m < i + 1 && tokens@[m] == Some(tok) implies idx@.contains(m as usize) by {
            if m == i {
                assert(idx@[idx@.len() - 1] == i);
            } else {
                let j = choose|j: int| 0 <= j < before.len() && before[j] == m as usize;
                assert(idx@[j] == m as usize);
            }
        }
    }
    idx
}

} // verus!
