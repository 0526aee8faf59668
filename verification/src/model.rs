//! Identities shared by agents and IM channels.
use vstd::prelude::*;
use crate::text::{append, owned, prefix_within, prefix_within_bytes, str_eq};

verus! {

/// An opaque identifier assigned by an agent runtime.
#[derive(Debug, Clone, PartialEq, Eq, Hash)]
pub struct SessionId(String);

impl View for SessionId {
    type V = Seq<char>;

    closed spec fn view(&self) -> Seq<char> {
        self.0@
    }
}

impl SessionId {
    pub fn new(value: &str) -> (r: Self)
        ensures
            r@ == value@,
    {
        SessionId(owned(value))
    }

    pub fn from_string(value: String) -> (r: Self)
        ensures
            r@ == value@,
    {
        SessionId(value)
    }

    pub fn as_str(&self) -> (r: &str)
        ensures
            r@ == self@,
    {
        self.0.as_str()
    }

    /// The leading part shown in compact labels: at most eight UTF-8 bytes,
    /// whole characters only.
    pub fn short(&self) -> (r: String)
        ensures
            r@ == prefix_within(self@, 8),
    {
        prefix_within_bytes(self.0.as_str(), 8)
    }

    /// The identifier as displayed.
    pub fn to_display_string(&self) -> (r: String)
        ensures
            r@ == self@,
    {
        self.0.clone()
    }

    pub fn duplicate(&self) -> (r: Self)
        ensures
            r@ == self@,
    {
        SessionId(self.0.clone())
    }

    pub fn same(&self, other: &SessionId) -> (r: bool)
        ensures
            r == (self@ == other@),
    {
        str_eq(self.0.as_str(), other.0.as_str())
    }
}

/// A supported instant-messaging transport.
#[derive(Debug, Clone, Copy, PartialEq, Eq, Hash, Structural)]
pub enum ChannelKind {
    Telegram,
    Feishu,
}

pub open spec fn channel_name(kind: ChannelKind) -> Seq<char> {
    match kind {
        ChannelKind::Telegram => "telegram"@,
        ChannelKind::Feishu => "feishu"@,
    }
}

/// The channel named by `value`, or the message that rejects it.
pub open spec fn parse_channel(value: Seq<char>) -> Result<ChannelKind, Seq<char>> {
    if value == "telegram"@ {
        Ok(ChannelKind::Telegram)
    } else if value == "feishu"@ {
        Ok(ChannelKind::Feishu)
    } else {
        Err("unsupported channel kind: "@ + value)
    }
}

impl ChannelKind {
    /// The channel's name, as displayed and stored.
    pub fn as_str(self) -> (r: &'static str)
        ensures
            r@ == channel_name(self),
    {
        match self {
            ChannelKind::Telegram => "telegram",
            ChannelKind::Feishu => "feishu",
        }
    }

    pub fn parse(value: &str) -> (r: Result<ChannelKind, String>)
        ensures
            match (r, parse_channel(value@)) {
                (Ok(k), Ok(m)) => k == m,
                (Err(e), Err(m)) => e@ == m,
                _ => false,
            },
    {
        if str_eq(value, "telegram") {
            Ok(ChannelKind::Telegram)
        } else if str_eq(value, "feishu") {
            Ok(ChannelKind::Feishu)
        } else {
            let mut message = owned("unsupported channel kind: ");
            append(&mut message, value);
            Err(message)
        }
    }
}

impl std::str::FromStr for ChannelKind {
    type Err = String;

    fn from_str(value: &str) -> (r: Result<ChannelKind, String>)
        ensures
            match (r, parse_channel(value@)) {
                (Ok(k), Ok(m)) => k == m,
                (Err(e), Err(m)) => e@ == m,
                _ => false,
            },
    {
        ChannelKind::parse(value)
    }
}

/// Every channel name parses back to its channel.
pub proof fn channel_name_round_trip(kind: ChannelKind)
    ensures
        parse_channel(channel_name(kind)) == Ok::<ChannelKind, Seq<char>>(kind),
{
    reveal_strlit("telegram");
    reveal_strlit("feishu");
    assert("telegram"@ != "feishu"@) by {
        assert("telegram"@.len() != "feishu"@.len());
    }
}

/// A chat namespace; platform threads can be encoded in `conversation_id`.
#[derive(Debug, Clone, PartialEq, Eq, Hash)]
pub struct ConversationRef {
    pub channel: ChannelKind,
    pub conversation_id: String,
}

impl ConversationRef {
    pub fn new(channel: ChannelKind, conversation_id: &str) -> (r: Self)
        ensures
            r.channel == channel,
            r.conversation_id@ == conversation_id@,
    {
        ConversationRef { channel, conversation_id: owned(conversation_id) }
    }

    pub fn same(&self, other: &ConversationRef) -> (r: bool)
        ensures
            r == (self.channel == other.channel && self.conversation_id@ == other.conversation_id@),
    {
        self.channel == other.channel && str_eq(self.conversation_id.as_str(), other.conversation_id.as_str())
    }
}


/// A turn of a session.
#[derive(Debug, Clone, PartialEq, Eq, Hash)]
pub struct TurnKey {
    pub session: SessionId,
    pub turn: String,
}

impl View for TurnKey {
    type V = (Seq<char>, Seq<char>);

    open spec fn view(&self) -> (Seq<char>, Seq<char>) {
        (self.session@, self.turn@)
    }
}

impl TurnKey {
    pub fn new(session: &SessionId, turn: &str) -> (r: Self)
        ensures
            r@ == (session@, turn@),
    {
        TurnKey { session: session.duplicate(), turn: owned(turn) }
    }

    pub fn same(&self, other: &TurnKey) -> (r: bool)
        ensures
            r == (self@ == other@),
    {
        self.session.same(&other.session) && str_eq(self.turn.as_str(), other.turn.as_str())
    }

    pub fn duplicate(&self) -> (r: Self)
        ensures
            r@ == self@,
    {
        TurnKey { session: self.session.duplicate(), turn: self.turn.clone() }
    }
}

pub open spec fn keys_view(keys: Seq<TurnKey>) -> Seq<(Seq<char>, Seq<char>)> {
    keys.map_values(|k: TurnKey| k@)
}

/// Whether `key` is among `keys`.
pub fn contains_key(keys: &Vec<TurnKey>, key: &TurnKey) -> (r: bool)
    ensures
        r == keys_view(keys@).contains(key@),
{
    let mut i: usize = 0;
    while i < keys.len()
        invariant
            i <= keys.len(),
            forall|j: int| 0 <= j < i ==> keys@[j]@ != key@,
        decreases keys.len() - i,
    {
        if keys[i].same(key) {
            assert(keys_view(keys@)[i as int] == key@);
            return true;
        }
        i = i + 1;
    }
    assert forall|j: int| 0 <= j < keys_view(keys@).len() implies keys_view(keys@)[j] != key@ by {
        assert(keys_view(keys@)[j] == keys@[j]@);
    }
    false
}

} // verus!
