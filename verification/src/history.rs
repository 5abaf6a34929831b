//! What was said so far, as far as the language model is told of it.

use crate::json::{json_fields, json_items, json_of, object_value, text_value, Json};
use crate::segmenter::last_items;
use std::collections::VecDeque;
use vstd::prelude::*;

verus! {

/// Who says a message.
#[derive(Clone, Copy, PartialEq, Eq, Structural, Debug)]
pub enum Role {
    System,
    User,
    Assistant,
}

impl Role {
    pub open spec fn word(self) -> Seq<char> {
        match self {
            Role::System => "system"@,
            Role::User => "user"@,
            Role::Assistant => "assistant"@,
        }
    }

    /// The word for a role in a request.
    pub fn label(self) -> (label: &'static str)
        ensures
            label@ == self.word(),
    {
        match self {
            Role::System => "system",
            Role::User => "user",
            Role::Assistant => "assistant",
        }
    }
}

/// What a message says.
pub struct Said {
    pub role: Role,
    pub content: Seq<char>,
}

/// A message as a request holds it.
pub open spec fn said_json(said: Said) -> Json {
    Json::Object(map!["role"@ => Json::Text(said.role.word()), "content"@ => Json::Text(said.content)])
}

/// Messages as a request holds them.
pub open spec fn said_list(all: Seq<Said>) -> Seq<Json> {
    all.map_values(|s: Said| said_json(s))
}

/// One message of a conversation.
pub struct Message {
    pub role: Role,
    pub content: String,
}

impl View for Message {
    type V = Said;

    open spec fn view(&self) -> Said {
        Said { role: self.role, content: self.content@ }
    }
}

impl Clone for Message {
    fn clone(&self) -> (copy: Self)
        ensures
            copy == *self,
    {
        Message { role: self.role, content: self.content.clone() }
    }
}

/// A message as a value to send.
pub fn message_value(role: Role, content: &str) -> (value: serde_json::Value)
    ensures
        json_of(value) == said_json(Said { role, content: content@ }),
{
    let mut pairs: Vec<(String, serde_json::Value)> = Vec::new();
    pairs.push(("role".to_owned(), text_value(role.label())));
    pairs.push(("content".to_owned(), text_value(content)));
    proof {
        reveal_with_fuel(json_fields, 3);
        let one = pairs@.drop_last();
        assert(one.drop_last() =~= seq![]);
        assert(json_fields(pairs@) == json_fields(one).insert("content"@, Json::Text(content@)));
        assert(json_fields(one) == json_fields(one.drop_last()).insert(
            "role"@,
            Json::Text(role.word()),
        ));
    }
    object_value(pairs)
}

/// What a history holds: the messages, oldest first, and how many it keeps.
#[verifier::ext_equal]
pub struct Remembering {
    pub turns: Seq<Said>,
    pub cap: nat,
}

/// A history without messages.
pub open spec fn nothing_said(cap: nat) -> Remembering {
    Remembering { turns: seq![], cap }
}

/// The history after one more message: the oldest goes where there is no room.
pub open spec fn remember(h: Remembering, said: Said) -> Remembering {
    Remembering { turns: last_items(h.turns.push(said), h.cap), ..h }
}

/// The history after some more messages.
pub open spec fn remember_all(h: Remembering, all: Seq<Said>) -> Remembering
    decreases all.len(),
{
    if all.len() == 0 {
        h
    } else {
        remember(remember_all(h, all.drop_last()), all.last())
    }
}

/// What a request sends of a history: what the model is told first, then every
/// message.
pub open spec fn request_list(h: Remembering, system: Seq<char>) -> Seq<Said> {
    seq![Said { role: Role::System, content: system }] + h.turns
}

pub open spec fn turns_view(turns: Seq<Message>) -> Seq<Said> {
    turns.map_values(|m: Message| m@)
}

/// The messages of a conversation, the last ones of a fixed number.
#[derive(Clone)]
pub struct History {
    turns: VecDeque<Message>,
    cap: usize,
}

impl View for History {
    type V = Remembering;

    closed spec fn view(&self) -> Remembering {
        Remembering { turns: turns_view(self.turns@), cap: self.cap as nat }
    }
}

impl History {
    pub open spec fn wf(self) -> bool {
        self@.turns.len() <= self@.cap
    }

    pub fn new(cap: usize) -> (h: Self)
        ensures
            h.wf(),
            h@ == nothing_said(cap as nat),
    {
        let h = History { turns: VecDeque::new(), cap };
        assert(h@ =~= nothing_said(cap as nat));
        h
    }

    pub fn len(&self) -> (n: usize)
        ensures
            n == self@.turns.len(),
    {
        self.turns.len()
    }

    pub fn is_empty(&self) -> (b: bool)
        ensures
            b == (self@.turns.len() == 0),
    {
        self.turns.len() == 0
    }

    fn push(&mut self, m: Message)
        requires
            old(self).wf(),
        ensures
            final(self).wf(),
            final(self)@ == remember(old(self)@, m@),
    {
        let ghost before = self@;
        let ghost said = m@;
        if self.turns.len() == self.cap && self.cap > 0 {
            let _ = self.turns.pop_front();
        }
        if self.cap > 0 {
            self.turns.push_back(m);
        }
        assert(self@ =~= remember(before, said));
    }

    /// Appends what the user said, then lists what the model is to be sent: what
    /// it is told first, then every message that is kept.
    pub fn record_user_and_build(&mut self, text: &str, system: &str) -> (msgs: Vec<
        serde_json::Value,
    >)
        requires
            old(self).wf(),
        ensures
            final(self).wf(),
            final(self)@ == remember(old(self)@, (Said { role: Role::User, content: text@ })),
            json_items(msgs@) == said_list(request_list(final(self)@, system@)),
    {
        self.push(Message { role: Role::User, content: text.to_owned() });
        let mut msgs: Vec<serde_json::Value> = Vec::new();
        msgs.push(message_value(Role::System, system));
        let ghost wanted = request_list(self@, system@);
        let mut i: usize = 0;
        while i < self.turns.len()
            invariant
                i <= self.turns@.len(),
                wanted == request_list(self@, system@),
                msgs@.len() == i + 1,
                forall|k: int|
                    0 <= k < msgs@.len() ==> json_of(#[trigger] msgs@[k]) == said_json(wanted[k]),
            decreases self.turns@.len() - i,
        {
            let m = &self.turns[i];
            assert(wanted[i + 1] == m@);
            msgs.push(message_value(m.role, m.content.as_str()));
            i += 1;
        }
        assert(json_items(msgs@) =~= said_list(wanted));
        msgs
    }

    /// Appends what the model answered.
    pub fn record_assistant(&mut self, text: &str)
        requires
            old(self).wf(),
        ensures
            final(self).wf(),
            final(self)@ == remember(old(self)@, (Said { role: Role::Assistant, content: text@ })),
    {
        self.push(Message { role: Role::Assistant, content: text.to_owned() });
    }

    pub fn clear(&mut self)
        ensures
            final(self).wf(),
            final(self)@ == nothing_said(old(self)@.cap),
    {
        self.turns.clear();
        assert(self@ =~= nothing_said(old(self)@.cap));
    }

    /// What every message says, oldest first.
    pub fn iter_contents(&self) -> (contents: Vec<String>)
        ensures
            contents@.len() == self@.turns.len(),
            forall|i: int|
                0 <= i < contents@.len() ==> (#[trigger] contents@[i])@ == self@.turns[i].content,
    {
        let mut contents: Vec<String> = Vec::new();
        let mut i: usize = 0;
        while i < self.turns.len()
            invariant
                i <= self.turns@.len(),
                contents@.len() == i,
                forall|k: int|
                    0 <= k < contents@.len() ==> (#[trigger] contents@[k])@
                        == self@.turns[k].content,
            decreases self.turns@.len() - i,
        {
            contents.push(self.turns[i].content.clone());
            i += 1;
        }
        contents
    }
}

/// A history holds the last messages that were recorded, as many as it keeps.
pub proof fn history_holds_the_last_messages(cap: nat, all: Seq<Said>)
    ensures
        remember_all(nothing_said(cap), all) == (Remembering { turns: last_items(all, cap), cap }),
        remember_all(nothing_said(cap), all).turns.len() <= cap,
    decreases all.len(),
{
    if all.len() == 0 {
        assert(last_items(all, cap) =~= seq![]);
    } else {
        let shorter = all.drop_last();
        history_holds_the_last_messages(cap, shorter);
        assert(shorter.push(all.last()) =~= all);
        assert(last_items(last_items(shorter, cap).push(all.last()), cap) =~= last_items(all, cap));
    }
}

/// A request ends with what the user just said, unless the history keeps
/// nothing: then the model is sent only what it is told first.
pub proof fn request_ends_with_the_user(h: Remembering, text: Seq<char>, system: Seq<char>)
    ensures
        ({
            let user = Said { role: Role::User, content: text };
            let request = request_list(remember(h, user), system);
            &&& request[0] == (Said { role: Role::System, content: system })
            &&& h.cap > 0 ==> request.len() > 1 && request.last() == user
            &&& h.cap == 0 ==> request.len() == 1
        }),
{
}

/// A message goes behind the others, and the oldest goes where there is no room
/// for all; a history without room keeps nothing.
pub proof fn message_goes_behind_the_others(h: Remembering, said: Said)
    requires
        h.turns.len() <= h.cap,
    ensures
        remember(h, said).cap == h.cap,
        h.turns.len() < h.cap ==> remember(h, said).turns == h.turns + seq![said],
        h.turns.len() == h.cap && h.cap > 0 ==> remember(h, said).turns == h.turns.drop_first()
            + seq![said],
        h.cap == 0 ==> remember(h, said).turns.len() == 0,
{
    if h.turns.len() < h.cap {
        assert(remember(h, said).turns =~= h.turns + seq![said]);
    } else if h.cap > 0 {
        assert(remember(h, said).turns =~= h.turns.drop_first() + seq![said]);
    }
}

/// A history without messages has none, whatever it keeps.
pub proof fn nothing_said_is_empty(cap: nat)
    ensures
        nothing_said(cap).turns.len() == 0,
        nothing_said(cap).cap == cap,
{
}

/// A request begins with what the model is told first, and then holds every message
/// of the history in its place.
pub proof fn request_holds_every_message(h: Remembering, system: Seq<char>)
    ensures
        request_list(h, system).len() == h.turns.len() + 1,
        request_list(h, system)[0].role == Role::System,
        request_list(h, system)[0].content == system,
        forall|i: int|
            0 <= i < h.turns.len() ==> #[trigger] h.turns[i] == request_list(h, system)[i + 1],
{
}

/// A message is sent as an object of two fields: who says it, in a word, and what
/// it says.
pub proof fn message_is_sent_with_role_and_content(said: Said)
    ensures
        said_json(said) is Object,
        ({
            let fields = said_json(said)->Object_0;
            &&& fields.dom() == set!["role"@, "content"@]
            &&& fields["content"@] == Json::Text(said.content)
            &&& fields["role"@] == Json::Text(
                if said.role == Role::System {
                    "system"@
                } else if said.role == Role::User {
                    "user"@
                } else {
                    "assistant"@
                },
            )
        }),
{
    reveal_strlit("role");
    reveal_strlit("content");
    assert("role"@.len() != "content"@.len());
    assert(said_json(said)->Object_0.dom() =~= set!["role"@, "content"@]);
}

/// Messages are sent one by one, in their order.
pub proof fn messages_are_sent_in_order(all: Seq<Said>)
    ensures
        said_list(all).len() == all.len(),
        forall|i: int| 0 <= i < all.len() ==> #[trigger] said_list(all)[i] == said_json(all[i]),
{
}

/// A message says what it holds.
pub proof fn message_says_what_it_holds(m: Message)
    ensures
        m@.role == m.role,
        m@.content == m.content@,
{
}

} // verus!
