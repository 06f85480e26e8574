use std::collections::HashSet;
use vstd::prelude::*;

use crate::command::{Command, CommandView, commands_view};
use crate::text::{decimal, push_i32};

verus! {

broadcast use vstd::std_specs::hash::group_hash_axioms;

/// The text that creates the object `name` on a peer's screen, labelled
/// with full hit points.
pub open spec fn new_object_text(name: Seq<char>) -> Seq<char> {
    "script new_object('"@ + name + "','"@ + name + "/HP:"@ + decimal(100) + "')"@
}

/// The text that relabels the object `name` with `hp` hit points.
pub open spec fn set_text_text(name: Seq<char>, hp: i32) -> Seq<char> {
    "script object_set_text('"@ + name + "','"@ + name + "/HP:"@ + decimal(hp as int) + "')"@
}

/// The text that creates the object `name` with its initial label.
pub open spec fn init_object_text(name: Seq<char>) -> Seq<char> {
    "script new_object('"@ + name + "',init)"@
}

/// What an update of the view of `name` does, peer by peer: a connected peer
/// that has not been told of the object yet is told, and then, if the
/// fighter's hit points `hp` differ from the last ones shown, all peers are
/// told the new hit points.  The result is the peers told of the object, the
/// hit points shown, and the commands in the order in which they go out.
pub open spec fn view_update(
    name: Seq<char>,
    tokens: Set<usize>,
    prev_hp: i32,
    peers: Seq<usize>,
    hp: Option<i32>,
) -> (Set<usize>, i32, Seq<CommandView>)
    decreases peers.len(),
{
    if peers.len() == 0 {
        (tokens, prev_hp, Seq::empty())
    } else {
        let before = view_update(name, tokens, prev_hp, peers.drop_last(), hp);
        let tok = peers.last();
        let told = if before.0.contains(tok) {
            (before.0, before.2)
        } else {
            (before.0.insert(tok), before.2.push(CommandView::SendPeer(tok, new_object_text(name))))
        };
        match hp {
            Some(h) => if h != before.1 {
                (told.0, h, told.1.push(CommandView::SendAll(set_text_text(name, h))))
            } else {
                (told.0, before.1, told.1)
            },
            None => (told.0, before.1, told.1),
        }
    }
}

/// Law: after an update, the peers that have been told of the object are
/// those told before together with every connected peer.
pub proof fn lemma_view_update_tokens(
    name: Seq<char>,
    tokens: Set<usize>,
    prev_hp: i32,
    peers: Seq<usize>,
    hp: Option<i32>,
)
    ensures
        view_update(name, tokens, prev_hp, peers, hp).0 == tokens.union(peers.to_set()),
    decreases peers.len(),
{
    if peers.len() == 0 {
        assert(peers.to_set() =~= Set::<usize>::empty());
        assert(tokens.union(peers.to_set()) =~= tokens);
    } else {
        let rest = peers.drop_last();
        lemma_view_update_tokens(name, tokens, prev_hp, rest, hp);
        rest.lemma_push_to_set_commute(peers.last());
        assert(rest.push(peers.last()) =~= peers);
        assert(tokens.union(rest.to_set()).insert(peers.last()) =~= tokens.union(peers.to_set()));
    }
}

/// Law: after an update, the hit points shown are the fighter's, if it has
/// a status and at least one peer is connected; else they stay as they were.
pub proof fn lemma_view_update_hp(
    name: Seq<char>,
    tokens: Set<usize>,
    prev_hp: i32,
    peers: Seq<usize>,
    hp: Option<i32>,
)
    ensures
        view_update(name, tokens, prev_hp, peers, hp).1 == (match hp {
            Some(h) => if peers.len() > 0 { h } else { prev_hp },
            None => prev_hp,
        }),
    decreases peers.len(),
{
    if peers.len() > 0 {
        lemma_view_update_hp(name, tokens, prev_hp, peers.drop_last(), hp);
    }
}

proof fn lemma_view_update_quiet(
    name: Seq<char>,
    tokens: Set<usize>,
    prev_hp: i32,
    peers: Seq<usize>,
    hp: Option<i32>,
)
    requires
        forall|k: int| 0 <= k < peers.len() ==> tokens.contains(#[trigger] peers[k]),
        peers.len() > 0 && hp is Some ==> prev_hp == hp->0,
    ensures
        view_update(name, tokens, prev_hp, peers, hp) == (tokens, prev_hp, Seq::<CommandView>::empty()),
    decreases peers.len(),
{
    if peers.len() > 0 {
        let rest = peers.drop_last();
        assert forall|k: int| 0 <= k < rest.len() implies tokens.contains(#[trigger] rest[k]) by {
            assert(rest[k] == peers[k]);
        }
        lemma_view_update_quiet(name, tokens, prev_hp, rest, hp);
        assert(tokens.contains(peers[peers.len() - 1]));
    }
}

/// Law: an update is idempotent.  Updating again with the same connected
/// peers and the same hit points sends nothing and changes nothing.
pub proof fn lemma_view_update_idempotent(
    name: Seq<char>,
    tokens: Set<usize>,
    prev_hp: i32,
    peers: Seq<usize>,
    hp: Option<i32>,
)
    ensures
        ({
            let after = view_update(name, tokens, prev_hp, peers, hp);
            view_update(name, after.0, after.1, peers, hp) == (after.0, after.1, Seq::<CommandView>::empty())
        }),
{
    let after = view_update(name, tokens, prev_hp, peers, hp);
    lemma_view_update_tokens(name, tokens, prev_hp, peers, hp);
    lemma_view_update_hp(name, tokens, prev_hp, peers, hp);
    assert forall|k: int| 0 <= k < peers.len() implies after.0.contains(#[trigger] peers[k]) by {
        assert(peers.to_set().contains(peers[k]));
    }
    lemma_view_update_quiet(name, after.0, after.1, peers, hp);
}

proof fn lemma_push_keeps(cmds: Seq<CommandView>, c: CommandView, d: CommandView)
    requires
        cmds.contains(c),
    ensures
        cmds.push(d).contains(c),
{
    let i = choose|i: int| 0 <= i < cmds.len() && cmds[i] == c;
    assert(cmds.push(d)[i] == c);
}

/// Law: whenever a peer is connected and the fighter's hit points differ
/// from those shown last, all peers are sent the new hit points.
pub proof fn lemma_view_update_broadcasts_hp_change(
    name: Seq<char>,
    tokens: Set<usize>,
    prev_hp: i32,
    peers: Seq<usize>,
    h: i32,
)
    requires
        peers.len() > 0,
        h != prev_hp,
    ensures
        view_update(name, tokens, prev_hp, peers, Some(h)).2.contains(
            CommandView::SendAll(
                "script object_set_text('"@ + name + "','"@ + name + "/HP:"@ + decimal(h as int)
                    + "')"@,
            ),
        ),
    decreases peers.len(),
{
    let sent = CommandView::SendAll(
        "script object_set_text('"@ + name + "','"@ + name + "/HP:"@ + decimal(h as int) + "')"@,
    );
    let rest = peers.drop_last();
    let before = view_update(name, tokens, prev_hp, rest, Some(h));
    let tok = peers.last();
    let told = if before.0.contains(tok) {
        before.2
    } else {
        before.2.push(CommandView::SendPeer(tok, new_object_text(name)))
    };
    if rest.len() == 0 {
        assert(told.push(sent)[told.len() as int] == sent);
    } else {
        lemma_view_update_broadcasts_hp_change(name, tokens, prev_hp, rest, h);
        if !before.0.contains(tok) {
            lemma_push_keeps(before.2, sent, CommandView::SendPeer(tok, new_object_text(name)));
        }
        if h != before.1 {
            lemma_push_keeps(told, sent, sent);
        }
    }
}

/// Law: every connected peer that had not been told of the object is told,
/// with the label of full hit points.
pub proof fn lemma_view_update_tells_new_peers(
    name: Seq<char>,
    tokens: Set<usize>,
    prev_hp: i32,
    peers: Seq<usize>,
    hp: Option<i32>,
    t: usize,
)
    requires
        peers.contains(t),
        !tokens.contains(t),
    ensures
        view_update(name, tokens, prev_hp, peers, hp).2.contains(
            CommandView::SendPeer(
                t,
                "script new_object('"@ + name + "','"@ + name + "/HP:"@ + decimal(100) + "')"@,
            ),
        ),
    decreases peers.len(),
{
    let told_t = CommandView::SendPeer(
        t,
        "script new_object('"@ + name + "','"@ + name + "/HP:"@ + decimal(100) + "')"@,
    );
    let rest = peers.drop_last();
    let before = view_update(name, tokens, prev_hp, rest, hp);
    let tok = peers.last();
    let after = view_update(name, tokens, prev_hp, peers, hp);
    lemma_view_update_tokens(name, tokens, prev_hp, rest, hp);
    if rest.contains(t) {
        lemma_view_update_tells_new_peers(name, tokens, prev_hp, rest, hp, t);
        let told = if before.0.contains(tok) {
            before.2
        } else {
            lemma_push_keeps(before.2, told_t, CommandView::SendPeer(tok, new_object_text(name)));
            before.2.push(CommandView::SendPeer(tok, new_object_text(name)))
        };
        match hp {
            Some(h) => if h != before.1 {
                lemma_push_keeps(told, told_t, CommandView::SendAll(set_text_text(name, h)));
            },
            None => {},
        }
    } else {
        let k = choose|k: int| 0 <= k < peers.len() && peers[k] == t;
        if k < rest.len() {
            assert(rest[k] == t);
        }
        assert(tok == t);
        assert(!rest.to_set().contains(t));
        assert(!before.0.contains(t));
        let told = before.2.push(told_t);
        assert(told[before.2.len() as int] == told_t);
        match hp {
            Some(h) => if h != before.1 {
                lemma_push_keeps(told, told_t, CommandView::SendAll(set_text_text(name, h)));
            },
            None => {},
        }
    }
}

/// Law: an update sends nothing else: each command either tells a connected
/// peer that had not been told of the object, or, where the fighter's hit
/// points `h` differ from those shown last, sends `h` to all peers.
pub proof fn lemma_view_update_sends_only(
    name: Seq<char>,
    tokens: Set<usize>,
    prev_hp: i32,
    peers: Seq<usize>,
    hp: Option<i32>,
)
    ensures
        forall|i: int|
            0 <= i < view_update(name, tokens, prev_hp, peers, hp).2.len() ==> ({
                let c = #[trigger] view_update(name, tokens, prev_hp, peers, hp).2[i];
                ||| exists|t: usize|
                    {
                        &&& peers.contains(t)
                        &&& !tokens.contains(t)
                        &&& c == CommandView::SendPeer(
                            t,
                            "script new_object('"@ + name + "','"@ + name + "/HP:"@ + decimal(100)
                                + "')"@,
                        )
                    }
                ||| exists|h: i32|
                    {
                        &&& hp == Some(h)
                        &&& h != prev_hp
                        &&& c == CommandView::SendAll(
                            "script object_set_text('"@ + name + "','"@ + name + "/HP:"@ + decimal(
                                h as int,
                            ) + "')"@,
                        )
                    }
            }),
    decreases peers.len(),
{
    if peers.len() > 0 {
        let rest = peers.drop_last();
        let before = view_update(name, tokens, prev_hp, rest, hp);
        let after = view_update(name, tokens, prev_hp, peers, hp);
        let tok = peers.last();
        lemma_view_update_sends_only(name, tokens, prev_hp, rest, hp);
        lemma_view_update_tokens(name, tokens, prev_hp, rest, hp);
        lemma_view_update_hp(name, tokens, prev_hp, rest, hp);
        assert forall|i: int| 0 <= i < after.2.len() implies ({
            let c = #[trigger] after.2[i];
            ||| exists|t: usize|
                {
                    &&& peers.contains(t)
                    &&& !tokens.contains(t)
                    &&& c == CommandView::SendPeer(
                        t,
                        "script new_object('"@ + name + "','"@ + name + "/HP:"@ + decimal(100)
                            + "')"@,
                    )
                }
            ||| exists|h: i32|
                {
                    &&& hp == Some(h)
                    &&& h != prev_hp
                    &&& c == CommandView::SendAll(
                        "script object_set_text('"@ + name + "','"@ + name + "/HP:"@ + decimal(
                            h as int,
                        ) + "')"@,
                    )
                }
        }) by {
            let c = after.2[i];
            if i < before.2.len() {
                assert(c == before.2[i]);
                let c0 = before.2[i];
                if exists|t: usize|
                    {
                        &&& rest.contains(t)
                        &&& !tokens.contains(t)
                        &&& c0 == CommandView::SendPeer(
                            t,
                            "script new_object('"@ + name + "','"@ + name + "/HP:"@ + decimal(100)
                                + "')"@,
                        )
                    } {
                    let t = choose|t: usize|
                        {
                            &&& rest.contains(t)
                            &&& !tokens.contains(t)
                            &&& c0 == CommandView::SendPeer(
                                t,
                                "script new_object('"@ + name + "','"@ + name + "/HP:"@ + decimal(
                                    100,
                                ) + "')"@,
                            )
                        };
                    let k = choose|k: int| 0 <= k < rest.len() && rest[k] == t;
                    assert(peers[k] == t);
                }
            } else if !before.0.contains(tok) && i == before.2.len() {
                assert(c == CommandView::SendPeer(tok, new_object_text(name)));
                assert(peers[peers.len() - 1] == tok);
                assert(!tokens.contains(tok));
            } else {
                let h = hp->0;
                assert(hp == Some(h));
                assert(c == CommandView::SendAll(set_text_text(name, h)));
                assert(h != before.1);
                assert(rest.len() == 0);
                assert(before.1 == prev_hp);
            }
        }
    }
}

/// Shows a fighter to the connected peers: its name and hit points.
pub struct ObjectViewComponent {
    name: String,
    prev_hp: i32,
    tokens: HashSet<usize>,
}

impl ObjectViewComponent {
    /// The name under which the object is shown.
    pub closed spec fn name_view(&self) -> Seq<char> {
        self.name@
    }

    /// The hit points shown last.
    pub closed spec fn prev_hp(&self) -> i32 {
        self.prev_hp
    }

    /// The peers that have been told of the object.
    pub closed spec fn tokens(&self) -> Set<usize> {
        self.tokens@
    }

    /// A view of `name` that no peer has been told of yet.
    pub fn new(name: String) -> (v: ObjectViewComponent)
        ensures
            v.name_view() == name@,
            v.prev_hp() == 0,
            v.tokens() == Set::<usize>::empty(),
    {
        ObjectViewComponent { name, prev_hp: 0, tokens: HashSet::new() }
    }

    /// Brings the connected `peers` up to date: `hp` is the fighter's hit
    /// points, where the entity has a fighter's status.
    pub fn update(&mut self, peers: &Vec<usize>, hp: Option<i32>) -> (cmds: Vec<Command>)
        ensures
            final(self).name_view() == old(self).name_view(),
            (final(self).tokens(), final(self).prev_hp(), commands_view(cmds@)) == view_update(
                old(self).name_view(),
                old(self).tokens(),
                old(self).prev_hp(),
                peers@,
                hp,
            ),
            forall|h: i32|
                peers@.len() > 0 && hp == Some(h) && h != old(self).prev_hp() ==> #[trigger] commands_view(
                    cmds@,
                ).contains(
                    CommandView::SendAll(
                        "script object_set_text('"@ + old(self).name_view() + "','"@
                            + old(self).name_view() + "/HP:"@ + decimal(h as int) + "')"@,
                    ),
                ),
            forall|t: usize|
                peers@.contains(t) && !old(self).tokens().contains(t) ==> #[trigger] commands_view(
                    cmds@,
                ).contains(
                    CommandView::SendPeer(
                        t,
                        "script new_object('"@ + old(self).name_view() + "','"@ + old(self).name_view()
                            + "/HP:"@ + decimal(100) + "')"@,
                    ),
                ),
    {
        let mut cmds: Vec<Command> = Vec::new();
        let n = peers.len();
        for i in 0..n
            invariant
                n == peers@.len(),
                self.name@ == old(self).name@,
                (self.tokens@, self.prev_hp, commands_view(cmds@)) == view_update(
                    old(self).name@,
                    old(self).tokens@,
                    old(self).prev_hp,
                    peers@.take(i as int),
                    hp,
                ),
        {
            let tok = peers[i];
            proof {
                assert(peers@.take(i + 1).drop_last() =~= peers@.take(i as int));
            }
            if !self.tokens.contains(&tok) {
                self.tokens.insert(tok);
                let cmd = self.new_object_text_exec();
                cmds.push(Command::SendPeer(tok, cmd));
            }
            match hp {
                Some(h) => {
                    if h != self.prev_hp {
                        self.prev_hp = h;
                        let cmd = self.set_text_exec(h);
                        cmds.push(Command::SendAll(cmd));
                    }
                },
                None => {},
            }
            proof {
                assert(commands_view(cmds@) =~= view_update(
                    old(self).name@,
                    old(self).tokens@,
                    old(self).prev_hp,
                    peers@.take(i + 1),
                    hp,
                ).2);
            }
        }
        proof {
            assert(peers@.take(n as int) =~= peers@);
            assert forall|h: i32|
                peers@.len() > 0 && hp == Some(h) && h != old(self).prev_hp() implies #[trigger] commands_view(
                cmds@,
            ).contains(
                CommandView::SendAll(
                    "script object_set_text('"@ + old(self).name_view() + "','"@
                        + old(self).name_view() + "/HP:"@ + decimal(h as int) + "')"@,
                ),
            ) by {
                lemma_view_update_broadcasts_hp_change(
                    old(self).name@,
                    old(self).tokens@,
                    old(self).prev_hp,
                    peers@,
                    h,
                );
            }
            assert forall|t: usize|
                peers@.contains(t) && !old(self).tokens().contains(t) implies #[trigger] commands_view(
                cmds@,
            ).contains(
                CommandView::SendPeer(
                    t,
                    "script new_object('"@ + old(self).name_view() + "','"@ + old(self).name_view()
                        + "/HP:"@ + decimal(100) + "')"@,
                ),
            ) by {
                lemma_view_update_tells_new_peers(
                    old(self).name@,
                    old(self).tokens@,
                    old(self).prev_hp,
                    peers@,
                    hp,
                    t,
                );
            }
        }
        cmds
    }

    fn new_object_text_exec(&self) -> (s: String)
        ensures
            s@ == new_object_text(self.name@),
    {
        let mut s = String::new();
        s.append("script new_object('");
        s.append(self.name.as_str());
        s.append("','");
        s.append(self.name.as_str());
        s.append("/HP:");
        push_i32(&mut s, 100);
        s.append("')");
        s
    }

    fn set_text_exec(&self, hp: i32) -> (s: String)
        ensures
            s@ == set_text_text(self.name@, hp),
    {
        let mut s = String::new();
        s.append("script object_set_text('");
        s.append(self.name.as_str());
        s.append("','");
        s.append(self.name.as_str());
        s.append("/HP:");
        push_i32(&mut s, hp);
        s.append("')");
        s
    }

    /// The command that creates the object on the screen of `tok`.
    pub fn new_object(&self, tok: usize) -> (cmd: Command)
        ensures
            cmd@ == CommandView::SendPeer(tok, init_object_text(self.name_view())),
            cmd@ == CommandView::SendPeer(
                tok,
                "script new_object('"@ + self.name_view() + "',init)"@,
            ),
    {
        let mut s = String::new();
        s.append("script new_object('");
        s.append(self.name.as_str());
        s.append("',init)");
        Command::SendPeer(tok, s)
    }
}

impl Clone for ObjectViewComponent {
    /// A copy: the same name, hit points shown and peers told.
    fn clone(&self) -> (c: Self)
        ensures
            c.name_view() == self.name_view(),
            c.prev_hp() == self.prev_hp(),
            c.tokens() == self.tokens(),
    {
        let mut tokens: HashSet<usize> = HashSet::new();
        for t in it: self.tokens.iter()
            invariant
                it.seq().unref().to_set() == self.tokens@,
                tokens@ == it.seq().take(it.index()).unref().to_set(),
                it.index() == it.seq().len() ==> tokens@ == self.tokens@,
        {
            let ghost pre = it.seq().take(it.index()).unref();
            tokens.insert(*t);
            proof {
                assert(it.seq().take(it.index() + 1).unref() =~= pre.push(*t));
                pre.lemma_push_to_set_commute(*t);
                assert(it.index() + 1 == it.seq().len() ==> it.seq().take(it.index() + 1)
                    =~= it.seq());
            }
        }
        ObjectViewComponent { name: self.name.clone(), prev_hp: self.prev_hp, tokens }
    }
}

} // verus!
