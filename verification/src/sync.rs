//! The chat synchronizer: the single owner of the local chat state.  It
//! applies inbound envelopes to the roster and the message log, builds
//! outbound envelopes, and reports which notification each applied envelope
//! calls for.

use vstd::prelude::*;
use vstd::string::StringExecFns;
use crate::codec::ChatMessage;
use crate::codec::Envelope;
use crate::codec::MsgTypes;
use crate::codec::decode_message_payload;
use crate::codec::decode_msg_spec;
use crate::codec::encode_message_payload;
use crate::codec::message_payload_text;
use crate::codec::str_eq;

verus! {

/// A roster entry: a user's name and the avatar reference derived from it.
#[derive(Clone, Debug, PartialEq, Eq)]
pub struct UserProfile {
    pub name: String,
    pub avatar: String,
}

/// What a state change announces to observers.
#[derive(Clone, Copy, Debug, PartialEq, Eq, Structural)]
pub enum Notification {
    RosterChanged,
    MessageReceived,
}

/// Where a connection stands in its lifetime.
#[derive(Clone, Copy, Debug, PartialEq, Eq, Structural)]
pub enum Phase {
    Disconnected,
    Registering,
    Active,
}

/// The local chat state: the roster from the last snapshot and the
/// append-only message log, oldest first.
#[derive(Clone, Debug, PartialEq, Eq)]
pub struct ChatState {
    pub roster: Vec<UserProfile>,
    pub log: Vec<ChatMessage>,
}

/// The avatar reference derived from a username; a function of the name
/// alone, so the same name always yields the same reference.
pub open spec fn avatar_of(name: Seq<char>) -> Seq<char> {
    "https://avatars.dicebear.com/api/adventurer-neutral/"@ + name + ".svg"@
}

/// The generic avatar reference used when a sender is not on the roster.
pub open spec fn placeholder_avatar() -> Seq<char> {
    "https://via.placeholder.com/40"@
}

/// Derives the avatar reference for a username.
pub fn derive_avatar(name: &str) -> (r: String)
    ensures
        r@ == avatar_of(name@),
{
    let mut out = "https://avatars.dicebear.com/api/adventurer-neutral/".to_owned();
    out.append(name);
    out.append(".svg");
    out
}

/// The roster holds exactly one profile per name of the snapshot, in snapshot
/// order, each with the avatar derived from its name.
pub open spec fn roster_matches(roster: Seq<UserProfile>, names: Seq<Seq<char>>) -> bool {
    &&& roster.len() == names.len()
    &&& forall|i: int|
        0 <= i < names.len() ==> (#[trigger] roster[i]).name@ == names[i] && roster[i].avatar@
            == avatar_of(names[i])
}

/// The names a `Users` envelope carries; an absent list counts as an empty
/// snapshot, not an error.
pub open spec fn names_of(env: Envelope) -> Seq<Seq<char>> {
    match env.payload_list {
        Option::Some(v) => v.deep_view(),
        Option::None => Seq::empty(),
    }
}

/// Whether an inbound envelope is successfully processed: everything is,
/// except a `Message` whose nested payload does not decode.
pub open spec fn envelope_applies(env: Envelope) -> bool {
    match env.kind {
        MsgTypes::Message => match env.payload_text {
            Option::Some(t) => decode_msg_spec(t@) is Some,
            Option::None => false,
        },
        _ => true,
    }
}

/// The new log is the old one with exactly one message appended, carrying
/// the given sender and body.
pub open spec fn log_appended(
    oldl: Seq<ChatMessage>,
    newl: Seq<ChatMessage>,
    sender: Seq<char>,
    body: Seq<char>,
) -> bool {
    &&& newl.len() == oldl.len() + 1
    &&& newl.subrange(0, oldl.len() as int) == oldl
    &&& newl[oldl.len() as int].sender@ == sender
    &&& newl[oldl.len() as int].body@ == body
}

/// The avatar shown for a sender: the avatar of the first roster entry with
/// exactly that name, or the placeholder when no entry matches.
pub open spec fn lookup_avatar(roster: Seq<UserProfile>, name: Seq<char>) -> Seq<char>
    decreases roster.len(),
{
    if roster.len() == 0 {
        placeholder_avatar()
    } else if roster[0].name@ == name {
        roster[0].avatar@
    } else {
        lookup_avatar(roster.skip(1), name)
    }
}

/// Roster replacement is atomic: the roster after a `Users` envelope is
/// determined by that envelope's names alone, so two rosters built from the
/// same snapshot agree entry by entry, whatever either held before.
pub proof fn lemma_roster_determined(
    r1: Seq<UserProfile>,
    r2: Seq<UserProfile>,
    names: Seq<Seq<char>>,
)
    requires
        roster_matches(r1, names),
        roster_matches(r2, names),
    ensures
        r1.len() == r2.len(),
        forall|i: int|
            0 <= i < r1.len() ==> (#[trigger] r1[i]).name@ == r2[i].name@ && r1[i].avatar@
                == r2[i].avatar@,
{
}

/// The log is append-only and order-preserving: after two messages arrive,
/// the log is the old log followed by the two messages, in receipt order.
pub proof fn lemma_log_append_order(
    l0: Seq<ChatMessage>,
    l1: Seq<ChatMessage>,
    l2: Seq<ChatMessage>,
    f1: Seq<char>,
    b1: Seq<char>,
    f2: Seq<char>,
    b2: Seq<char>,
)
    requires
        log_appended(l0, l1, f1, b1),
        log_appended(l1, l2, f2, b2),
    ensures
        l2.len() == l0.len() + 2,
        l2.subrange(0, l0.len() as int) == l0,
        l2[l0.len() as int].sender@ == f1 && l2[l0.len() as int].body@ == b1,
        l2[l0.len() + 1 as int].sender@ == f2 && l2[l0.len() + 1 as int].body@ == b2,
{
    assert(l2.subrange(0, l0.len() as int) =~= l1.subrange(0, l0.len() as int));
    assert(l2[l0.len() as int] == l1[l0.len() as int]);
}

/// Avatar derivation is deterministic: `derive_avatar` returns exactly
/// `avatar_of` of the name, so equal names always yield equal references.
pub proof fn lemma_avatar_deterministic(
    n1: Seq<char>,
    n2: Seq<char>,
    r1: Seq<char>,
    r2: Seq<char>,
)
    requires
        n1 == n2,
        r1 == avatar_of(n1),
        r2 == avatar_of(n2),
    ensures
        r1 == r2,
{
}

/// The synchronizer: the only component that mutates the chat state.
pub struct Synchronizer {
    pub state: ChatState,
    pub phase: Phase,
    pub local_user: Option<String>,
}

impl Synchronizer {
    /// A fresh synchronizer: empty roster, empty log, not yet connected.
    pub fn new() -> (s: Synchronizer)
        ensures
            s.state.roster@.len() == 0,
            s.state.log@.len() == 0,
            s.phase == Phase::Disconnected,
            s.local_user is None,
    {
        Synchronizer {
            state: ChatState { roster: Vec::new(), log: Vec::new() },
            phase: Phase::Disconnected,
            local_user: Option::None,
        }
    }

    /// Starts a connection: remembers the local username, enters the
    /// registering phase, and returns the `Register` envelope to send.  The
    /// state itself is untouched.
    pub fn on_connect(&mut self, username: &str) -> (env: Envelope)
        requires
            old(self).phase == Phase::Disconnected,
        ensures
            final(self).state.roster@ == old(self).state.roster@,
            final(self).state.log@ == old(self).state.log@,
            final(self).phase == Phase::Registering,
            final(self).local_user matches Some(u) && u@ == username@,
            env.kind == MsgTypes::Register,
            env.payload_list is None,
            env.payload_text matches Some(t) && t@ == username@,
            env.well_formed(),
    {
        self.phase = Phase::Registering;
        self.local_user = Option::Some(username.to_owned());
        Envelope {
            kind: MsgTypes::Register,
            payload_list: Option::None,
            payload_text: Option::Some(username.to_owned()),
        }
    }

    /// Applies one inbound envelope:
    /// - `Users` replaces the roster wholesale with the profiles derived from
    ///   the envelope's list, leaves the log alone, and calls for a
    ///   `RosterChanged` notification — whatever the roster held before;
    /// - `Message` appends the decoded payload to the log and calls for
    ///   `MessageReceived`; a payload that does not decode leaves all state
    ///   unchanged and calls for nothing;
    /// - `Register` inbound is not expected and is a no-op.
    ///
    /// The registering phase ends on the first successfully processed
    /// envelope of any kind.
    pub fn on_inbound_envelope(&mut self, env: Envelope) -> (n: Option<Notification>)
        ensures
            final(self).local_user == old(self).local_user,
            final(self).phase == (if old(self).phase == Phase::Registering && envelope_applies(env) {
                Phase::Active
            } else {
                old(self).phase
            }),
            env.kind == MsgTypes::Users ==> final(self).state.log@ == old(self).state.log@
                && roster_matches(final(self).state.roster@, names_of(env)) && n == Some(
                Notification::RosterChanged,
            ),
            env.kind == MsgTypes::Register ==> final(self).state.roster@
                == old(self).state.roster@ && final(self).state.log@ == old(self).state.log@
                && n is None,
            env.kind == MsgTypes::Message ==> match env.payload_text {
                Option::Some(t) => match decode_msg_spec(t@) {
                    Option::Some((f, b)) => final(self).state.roster@ == old(self).state.roster@
                        && log_appended(old(self).state.log@, final(self).state.log@, f, b) && n
                        == Some(Notification::MessageReceived),
                    Option::None => final(self).state.roster@ == old(self).state.roster@
                        && final(self).state.log@ == old(self).state.log@ && n is None,
                },
                Option::None => final(self).state.roster@ == old(self).state.roster@
                    && final(self).state.log@ == old(self).state.log@ && n is None,
            },
    {
        match env.kind {
            MsgTypes::Users => {
                let mut roster: Vec<UserProfile> = Vec::new();
                match &env.payload_list {
                    Option::Some(names) => {
                        let mut i: usize = 0;
                        while i < names.len()
                            invariant
                                i <= names@.len(),
                                roster@.len() == i,
                                forall|j: int|
                                    0 <= j < i ==> (#[trigger] roster@[j]).name@ == names@[j]@
                                        && roster@[j].avatar@ == avatar_of(names@[j]@),
                            decreases names@.len() - i,
                        {
                            let nm = &names[i];
                            roster.push(UserProfile { name: nm.clone(), avatar: derive_avatar(nm.as_str()) });
                            i = i + 1;
                        }
                    },
                    Option::None => {},
                }
                self.state.roster = roster;
                if self.phase == Phase::Registering {
                    self.phase = Phase::Active;
                }
                proof {
                    assert(roster_matches(self.state.roster@, names_of(env)));
                }
                Some(Notification::RosterChanged)
            },
            MsgTypes::Register => {
                if self.phase == Phase::Registering {
                    self.phase = Phase::Active;
                }
                Option::None
            },
            MsgTypes::Message => {
                match &env.payload_text {
                    Option::Some(txt) => match decode_message_payload(txt.as_str()) {
                        Ok(m) => {
                            let ghost oldlog = self.state.log@;
                            self.state.log.push(m);
                            if self.phase == Phase::Registering {
                                self.phase = Phase::Active;
                            }
                            proof {
                                assert(self.state.log@.subrange(0, oldlog.len() as int)
                                    =~= oldlog);
                            }
                            Some(Notification::MessageReceived)
                        },
                        Err(_) => Option::None,
                    },
                    Option::None => Option::None,
                }
            },
        }
    }

    /// The transport signalled closure: the connection is over.  The roster
    /// and the log retain their last values — only a later snapshot or echo
    /// replaces them — and the username is kept for a possible reconnect.
    pub fn on_disconnect(&mut self)
        ensures
            final(self).state.roster@ == old(self).state.roster@,
            final(self).state.log@ == old(self).state.log@,
            final(self).local_user == old(self).local_user,
            final(self).phase == Phase::Disconnected,
    {
        self.phase = Phase::Disconnected;
    }

    /// Builds the outbound `Message` envelope for a message body.  The sender
    /// is the username given at connection time; without one there is nothing
    /// to send.  The local state is not touched: the message enters the log
    /// only when the server echoes it back.
    pub fn submit_outbound_message(&self, body: &str) -> (r: Option<Envelope>)
        ensures
            match self.local_user {
                Option::Some(u) => r matches Some(env) && env.kind == MsgTypes::Message
                    && env.payload_list is None && (env.payload_text matches Some(t) && t@
                    == message_payload_text(u@, body@)) && env.well_formed(),
                Option::None => r is None,
            },
    {
        match &self.local_user {
            Option::Some(u) => Option::Some(
                Envelope {
                    kind: MsgTypes::Message,
                    payload_list: Option::None,
                    payload_text: Option::Some(encode_message_payload(u.as_str(), body)),
                },
            ),
            Option::None => Option::None,
        }
    }

    /// The avatar to render for a message's sender: the first roster entry
    /// with exactly that name, or the placeholder.  The roster is only read.
    pub fn avatar_for_sender(&self, name: &str) -> (r: String)
        ensures
            r@ == lookup_avatar(self.state.roster@, name@),
    {
        let n = self.state.roster.len();
        let mut i: usize = 0;
        proof {
            assert(self.state.roster@.skip(0) =~= self.state.roster@);
        }
        while i < n
            invariant
                i <= n,
                n == self.state.roster@.len(),
                lookup_avatar(self.state.roster@, name@) == lookup_avatar(
                    self.state.roster@.skip(i as int),
                    name@,
                ),
            decreases n - i,
        {
            proof {
                assert(self.state.roster@.skip(i as int)[0] == self.state.roster@[i as int]);
                assert(self.state.roster@.skip(i as int).skip(1) =~= self.state.roster@.skip(
                    i + 1 as int,
                ));
            }
            if str_eq(&self.state.roster[i].name, name) {
                return self.state.roster[i].avatar.clone();
            }
            i = i + 1;
        }
        "https://via.placeholder.com/40".to_owned()
    }
}

} // verus!
