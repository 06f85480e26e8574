use vstd::prelude::*;

verus! {

/// What a text message from a peer asks for.
#[derive(PartialEq, Eq, Structural)]
pub enum MessageKind {
    /// `start`: join the game.
    Start,
    /// `button1`: attack.
    Button1,
    /// `end`: leave the game.
    End,
    /// `click ...`: a click on the screen.
    Click,
    /// Anything else.
    Other,
}

/// Whether `text` begins with `prefix`.
pub open spec fn has_prefix(text: Seq<char>, prefix: Seq<char>) -> bool {
    prefix.len() <= text.len() && text.subrange(0, prefix.len() as int) == prefix
}

/// What the message `msg` asks for.
pub open spec fn message_kind(msg: Seq<char>) -> MessageKind {
    if msg == "start"@ {
        MessageKind::Start
    } else if msg == "button1"@ {
        MessageKind::Button1
    } else if msg == "end"@ {
        MessageKind::End
    } else if has_prefix(msg, "click"@) {
        MessageKind::Click
    } else {
        MessageKind::Other
    }
}

/// Law: the messages `start`, `button1` and `end` ask for what they name,
/// and every message that begins with `click` is a click, whatever follows.
pub proof fn lemma_message_kinds(msg: Seq<char>)
    ensures
        msg == "start"@ <==> message_kind(msg) == MessageKind::Start,
        msg == "button1"@ <==> message_kind(msg) == MessageKind::Button1,
        msg == "end"@ <==> message_kind(msg) == MessageKind::End,
        has_prefix(msg, "click"@) <==> message_kind(msg) == MessageKind::Click,
{
    reveal_strlit("start");
    reveal_strlit("button1");
    reveal_strlit("end");
    reveal_strlit("click");
    if has_prefix(msg, "click"@) {
        assert(msg.subrange(0, 5)[0] == msg[0]);
        assert(msg[0] == 'c');
        assert(msg != "start"@);
        assert(msg != "button1"@);
        assert(msg != "end"@);
    }
}

/// Whether `text` begins with `prefix`, character by character.
pub fn starts_with(text: &str, prefix: &str) -> (b: bool)
    ensures
        b == has_prefix(text@, prefix@),
{
    let n = prefix.unicode_len();
    let m = text.unicode_len();
    if n > m {
        return false;
    }
    for i in 0..n
        invariant
            n == prefix@.len(),
            m == text@.len(),
            n <= m,
            forall|j: int| 0 <= j < i ==> text@[j] == prefix@[j],
    {
        if text.get_char(i) != prefix.get_char(i) {
            assert(text@.subrange(0, n as int)[i as int] != prefix@[i as int]);
            return false;
        }
    }
    assert(text@.subrange(0, n as int) =~= prefix@);
    true
}

/// Whether `a` and `b` are the same text.
pub fn same_text(a: &str, b: &str) -> (eq: bool)
    ensures
        eq == (a@ == b@),
{
    if a.unicode_len() != b.unicode_len() {
        return false;
    }
    let r = starts_with(a, b);
    assert(a@.subrange(0, a@.len() as int) =~= a@);
    r
}

/// What the message `msg` asks for: the first of `start`, `button1`, `end`
/// and a message that begins with `click` that it is.
pub fn classify(msg: &str) -> (kind: MessageKind)
    ensures
        kind == message_kind(msg@),
        msg@ == "start"@ <==> kind == MessageKind::Start,
        msg@ == "button1"@ <==> kind == MessageKind::Button1,
        msg@ == "end"@ <==> kind == MessageKind::End,
        has_prefix(msg@, "click"@) <==> kind == MessageKind::Click,
{
    proof {
        lemma_message_kinds(msg@);
    }
    if same_text(msg, "start") {
        MessageKind::Start
    } else if same_text(msg, "button1") {
        MessageKind::Button1
    } else if same_text(msg, "end") {
        MessageKind::End
    } else if starts_with(msg, "click") {
        MessageKind::Click
    } else {
        MessageKind::Other
    }
}

} // verus!
