pub mod battle_status_component;
pub mod object_view_component;

use vstd::prelude::*;

use crate::command::{Command, CommandView, commands_view};
use crate::random::random_u32;
use crate::text::{decimal, push_i32, push_usize};
use self::battle_status_component::BattleStatusComponent;

verus! {

/// The kinds of component that the entities of the second game hold.
#[derive(PartialEq, Eq, Structural, Clone, Copy)]
pub enum ComponentKind {
    /// Where the fighter is.
    Position,
    /// The fighter's hit points and attack power.
    BattleStatus,
    /// How the fighter is shown to the peers.
    ObjectView,
}

/// The type id under which an entity files a component of `kind`.
pub open spec fn kind_type_id(kind: ComponentKind) -> i32 {
    match kind {
        ComponentKind::Position => 2,
        ComponentKind::BattleStatus => 3,
        ComponentKind::ObjectView => 4,
    }
}

/// The type id under which an entity files a component of `kind`: 2 for
/// the position, 3 for the fighter's status, 4 for the object view.
pub fn type_id(kind: ComponentKind) -> (id: i32)
    ensures
        id == kind_type_id(kind),
        kind == ComponentKind::Position ==> id == 2,
        kind == ComponentKind::BattleStatus ==> id == 3,
        kind == ComponentKind::ObjectView ==> id == 4,
{
    match kind {
        ComponentKind::Position => 2,
        ComponentKind::BattleStatus => 3,
        ComponentKind::ObjectView => 4,
    }
}

/// Law: distinct kinds of component are filed under distinct type ids, so
/// an entity can hold one of each.
pub proof fn lemma_type_ids_distinct(a: ComponentKind, b: ComponentKind)
    ensures
        kind_type_id(a) == kind_type_id(b) <==> a == b,
{
}

/// The name under which the player of peer `tok` is shown.
pub open spec fn player_name_text(tok: usize) -> Seq<char> {
    "PL"@ + decimal(tok as int)
}

/// The name under which the player of peer `tok` is shown: `PL` and the
/// peer's number.
pub fn player_name(tok: usize) -> (name: String)
    ensures
        name@ == player_name_text(tok),
        name@ == "PL"@ + decimal(tok as int),
{
    let mut s = String::new();
    s.append("PL");
    push_usize(&mut s, tok);
    s
}

/// The commands that set up the buttons of a player who has just started:
/// the first button attacks, the others are hidden.
pub open spec fn start_commands_view(tok: usize) -> Seq<CommandView> {
    seq![
        CommandView::SendPeer(tok, "script setup_button(1,true,'攻撃')"@),
        CommandView::SendPeer(tok, "script setup_button(2,false,'')"@),
        CommandView::SendPeer(tok, "script setup_button(3,false,'')"@),
    ]
}

/// The commands that set up the buttons of the player of peer `tok`.
pub fn start_commands(tok: usize) -> (cmds: Vec<Command>)
    ensures
        commands_view(cmds@) == start_commands_view(tok),
        commands_view(cmds@) == seq![
            CommandView::SendPeer(tok, "script setup_button(1,true,'攻撃')"@),
            CommandView::SendPeer(tok, "script setup_button(2,false,'')"@),
            CommandView::SendPeer(tok, "script setup_button(3,false,'')"@),
        ],
{
    let mut cmds: Vec<Command> = Vec::new();
    cmds.push(Command::SendPeer(tok, String::from_str("script setup_button(1,true,'攻撃')")));
    cmds.push(Command::SendPeer(tok, String::from_str("script setup_button(2,false,'')")));
    cmds.push(Command::SendPeer(tok, String::from_str("script setup_button(3,false,'')")));
    assert(commands_view(cmds@) =~= start_commands_view(tok));
    cmds
}

/// The last position at which `ids` holds `id`.
pub open spec fn last_index_of(ids: Seq<i32>, id: i32) -> Option<int>
    decreases ids.len(),
{
    if ids.len() == 0 {
        None
    } else if ids.last() == id {
        Some(ids.len() - 1)
    } else {
        last_index_of(ids.drop_last(), id)
    }
}

/// Law: the last position at which `ids` holds `id` holds it, and no later
/// one does; where there is none, no position holds it.
pub proof fn lemma_last_index_of(ids: Seq<i32>, id: i32)
    ensures
        last_index_of(ids, id) matches Some(i) ==> 0 <= i < ids.len() && ids[i] == id && forall|j: int|
            i < j < ids.len() ==> ids[j] != id,
        last_index_of(ids, id) is None ==> forall|j: int| 0 <= j < ids.len() ==> ids[j] != id,
    decreases ids.len(),
{
    if ids.len() > 0 {
        let rest = ids.drop_last();
        lemma_last_index_of(rest, id);
        assert forall|j: int| 0 <= j < rest.len() implies rest[j] == ids[j] by {}
    }
}

/// The entity of the player of peer `tok`: the last one whose player id,
/// among `player_ids` (one per entity, in order), is `tok` taken as an `i32`.
pub fn find_player(player_ids: &Vec<i32>, tok: usize) -> (found: Option<usize>)
    ensures
        found matches Some(i) ==> last_index_of(player_ids@, tok as i32) == Some(i as int),
        found is None ==> last_index_of(player_ids@, tok as i32) is None,
        found matches Some(i) ==> i < player_ids@.len() && player_ids@[i as int] == tok as i32
            && forall|j: int| i < j < player_ids@.len() ==> player_ids@[j] != tok as i32,
        found is None ==> forall|j: int| 0 <= j < player_ids@.len() ==> player_ids@[j] != tok as i32,
{
    proof {
        lemma_last_index_of(player_ids@, tok as i32);
    }
    let key: i32 = tok as i32;
    let mut found: Option<usize> = None;
    let n = player_ids.len();
    for i in 0..n
        invariant
            n == player_ids@.len(),
            key == tok as i32,
            found matches Some(j) ==> last_index_of(player_ids@.take(i as int), key) == Some(j as int),
            found is None ==> last_index_of(player_ids@.take(i as int), key) is None,
    {
        assert(player_ids@.take(i + 1).drop_last() =~= player_ids@.take(i as int));
        if player_ids[i] == key {
            found = Some(i);
        }
    }
    assert(player_ids@.take(n as int) =~= player_ids@);
    found
}

/// The entity that a press of button 1 targets, given the random `roll`:
/// the roll modulo the number of entities.
pub fn target_index_with_roll(roll: u32, count: usize) -> (idx: usize)
    requires
        0 < count <= u32::MAX,
    ensures
        idx == roll % (count as u32),
        idx < count,
{
    let c: u32 = count as u32;
    (roll % c) as usize
}

/// The entity that a press of button 1 targets: one of the `count`
/// entities, drawn at random.
pub fn target_index(count: usize) -> (idx: usize)
    requires
        0 < count <= u32::MAX,
    ensures
        idx < count,
{
    let roll = random_u32();
    target_index_with_roll(roll, count)
}

/// The text shown when the player `id_me` attacks itself.
pub open spec fn no_effect_text(id_me: i32) -> Seq<char> {
    "script show_text('"@ + decimal(id_me as int) + "の攻撃!効果がなかった"@ + "')"@
}

/// The text shown when `id_me` deals `damage` to `id_tgt`.
pub open spec fn damage_text(id_me: i32, id_tgt: i32, damage: i32) -> Seq<char> {
    "script show_text('"@ + decimal(id_me as int) + "の攻撃!>>"@ + decimal(id_tgt as int) + "に"@
        + decimal(damage as int) + "のダメージ!"@ + "')"@
}

/// Law: the report of a hit names the attacker first, then the target, then
/// the damage.
pub proof fn lemma_damage_text_names_attacker_first(id_me: i32, id_tgt: i32, damage: i32)
    ensures
        damage_text(id_me, id_tgt, damage) == "script show_text('"@ + decimal(id_me as int)
            + "の攻撃!>>"@ + decimal(id_tgt as int) + "に"@ + decimal(damage as int) + "のダメージ!"@
            + "')"@,
        damage_text(id_me, id_tgt, damage).subrange(0, 18 + decimal(id_me as int).len() as int)
            == "script show_text('"@ + decimal(id_me as int),
{
    reveal_strlit("script show_text('");
    let head = "script show_text('"@ + decimal(id_me as int);
    let t = damage_text(id_me, id_tgt, damage);
    assert(t.subrange(0, head.len() as int) =~= head);
}

/// Law: the report of an attack on oneself names the attacker and says the
/// attack had no effect.
pub proof fn lemma_no_effect_text_names_attacker(id_me: i32)
    ensures
        no_effect_text(id_me) == "script show_text('"@ + decimal(id_me as int) + "の攻撃!効果がなかった"@
            + "')"@,
{
}

fn no_effect_command(id_me: i32) -> (cmd: Command)
    ensures
        cmd@ == CommandView::SendAll(no_effect_text(id_me)),
{
    let mut s = String::new();
    s.append("script show_text('");
    push_i32(&mut s, id_me);
    s.append("の攻撃!効果がなかった");
    s.append("')");
    Command::SendAll(s)
}

fn damage_command(id_me: i32, id_tgt: i32, damage: i32) -> (cmd: Command)
    ensures
        cmd@ == CommandView::SendAll(damage_text(id_me, id_tgt, damage)),
{
    let mut s = String::new();
    s.append("script show_text('");
    push_i32(&mut s, id_me);
    s.append("の攻撃!>>");
    push_i32(&mut s, id_tgt);
    s.append("に");
    push_i32(&mut s, damage);
    s.append("のダメージ!");
    s.append("')");
    Command::SendAll(s)
}

/// Whether `tgt` can take from `me` the hit of the random `roll` without its
/// hit points overflowing.
pub open spec fn can_take_hit_with_roll(
    me: BattleStatusComponent,
    tgt: BattleStatusComponent,
    roll: u32,
) -> bool {
    &&& me.attack_pow() + (roll % 4) as int <= i32::MAX
    &&& i32::MIN <= tgt.hp() - (me.attack_pow() + (roll % 4) as int) <= i32::MAX
}

/// Whether `tgt` can take any hit from `me` without its hit points overflowing.
pub open spec fn can_take_hit(me: BattleStatusComponent, tgt: BattleStatusComponent) -> bool {
    &&& me.attack_pow() + 3 <= i32::MAX
    &&& tgt.hp() - me.attack_pow() - 3 >= i32::MIN
    &&& tgt.hp() - me.attack_pow() <= i32::MAX
}

/// A press of button 1 by the player `id_me`, aimed at `id_tgt`, with the
/// random `roll`.  Aimed at itself, it has no effect and everyone is told so.
/// Otherwise, where both entities have a fighter's status (`me` and `tgt`),
/// the target takes a hit of `me`'s attack power plus `roll % 4`, and
/// everyone is told the damage; the result then holds the target's new
/// status, which the caller stores back.  Where one has no status, nothing
/// happens.
pub fn resolve_button1_with_roll(
    id_me: i32,
    id_tgt: i32,
    me: Option<&BattleStatusComponent>,
    tgt: Option<BattleStatusComponent>,
    roll: u32,
) -> (out: (Option<BattleStatusComponent>, Option<Command>))
    requires
        id_me != id_tgt ==> (me matches Some(m) ==> (tgt matches Some(t) ==> can_take_hit_with_roll(
            *m,
            t,
            roll,
        ))),
    ensures
        id_me == id_tgt ==> out.0 is None && (out.1 matches Some(c) && c@ == CommandView::SendAll(
            no_effect_text(id_me),
        )),
        id_me == id_tgt ==> (out.1 matches Some(c) && c@ == CommandView::SendAll(
            "script show_text('"@ + decimal(id_me as int) + "の攻撃!効果がなかった"@ + "')"@,
        )),
        id_me != id_tgt && me is Some && tgt is Some ==> ({
            let m = me->0;
            let t = tgt->0;
            let damage = m.attack_pow() + (roll % 4) as int;
            &&& out.0 matches Some(t2)
            &&& t2.hp() == t.hp() - damage
            &&& t2.attack_pow() == t.attack_pow()
            &&& out.1 matches Some(c)
            &&& c@ == CommandView::SendAll(damage_text(id_me, id_tgt, damage as i32))
            &&& c@ == CommandView::SendAll(
                "script show_text('"@ + decimal(id_me as int) + "の攻撃!>>"@ + decimal(id_tgt as int)
                    + "に"@ + decimal(damage) + "のダメージ!"@ + "')"@,
            )
        }),
        id_me != id_tgt && (me is None || tgt is None) ==> out.0 is None && out.1 is None,
{
    if id_me == id_tgt {
        (None, Some(no_effect_command(id_me)))
    } else {
        match (me, tgt) {
            (Some(m), Some(t)) => {
                let mut t2 = t;
                let damage = t2.attacked_with_roll(m, roll);
                (Some(t2), Some(damage_command(id_me, id_tgt, damage)))
            },
            _ => (None, None),
        }
    }
}

/// A press of button 1 by the player `id_me`, aimed at `id_tgt`, with a
/// random roll: as `resolve_button1_with_roll`, where the damage is `me`'s
/// attack power plus 0 to 3.
pub fn resolve_button1(
    id_me: i32,
    id_tgt: i32,
    me: Option<&BattleStatusComponent>,
    tgt: Option<BattleStatusComponent>,
) -> (out: (Option<BattleStatusComponent>, Option<Command>))
    requires
        id_me != id_tgt ==> (me matches Some(m) ==> (tgt matches Some(t) ==> can_take_hit(*m, t))),
    ensures
        id_me == id_tgt ==> out.0 is None && (out.1 matches Some(c) && c@ == CommandView::SendAll(
            no_effect_text(id_me),
        )),
        id_me == id_tgt ==> (out.1 matches Some(c) && c@ == CommandView::SendAll(
            "script show_text('"@ + decimal(id_me as int) + "の攻撃!効果がなかった"@ + "')"@,
        )),
        id_me != id_tgt && me is Some && tgt is Some ==> ({
            let m = me->0;
            let t = tgt->0;
            &&& out.0 matches Some(t2)
            &&& out.1 matches Some(c)
            &&& {
                let damage = t.hp() - t2.hp();
                &&& m.attack_pow() <= damage <= m.attack_pow() + 3
                &&& t2.attack_pow() == t.attack_pow()
                &&& c@ == CommandView::SendAll(damage_text(id_me, id_tgt, damage as i32))
                &&& c@ == CommandView::SendAll(
                    "script show_text('"@ + decimal(id_me as int) + "の攻撃!>>"@ + decimal(
                        id_tgt as int,
                    ) + "に"@ + decimal(damage) + "のダメージ!"@ + "')"@,
                )
            }
        }),
        id_me != id_tgt && (me is None || tgt is None) ==> out.0 is None && out.1 is None,
{
    let roll = random_u32();
    resolve_button1_with_roll(id_me, id_tgt, me, tgt, roll)
}

} // verus!
