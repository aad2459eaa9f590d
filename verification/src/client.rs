//! The chat client: one synchronizer and one notification bus, wired the way
//! the transport uses them.  Raw inbound text is decoded, applied to the
//! state, and the resulting notification is published; outbound intents are
//! encoded into wire text for the transport to send.

use vstd::prelude::*;
use crate::bus::Bus;
use crate::bus::publish_step;
use crate::codec::MsgTypes;
use crate::codec::decode;
use crate::codec::decode_msg_spec;
use crate::codec::decode_spec;
use crate::codec::encode;
use crate::codec::envelope_text;
use crate::codec::message_payload_text;
use crate::sync::Notification;
use crate::sync::Phase;
use crate::sync::Synchronizer;
use crate::sync::log_appended;
use crate::sync::roster_matches;

verus! {

/// The names carried by a decoded list payload; an absent list counts as an
/// empty snapshot.
pub open spec fn names_of_list(l: Option<Seq<Seq<char>>>) -> Seq<Seq<char>> {
    match l {
        Option::Some(v) => v,
        Option::None => Seq::empty(),
    }
}

/// One chat participant: the synchronizer that owns the state and the bus
/// that relays its notifications to observers.
pub struct Chat {
    pub sync: Synchronizer,
    pub bus: Bus,
}

impl Chat {
    /// A fresh, disconnected participant with no observers.
    pub fn new() -> (c: Chat)
        ensures
            c.sync.state.roster@.len() == 0,
            c.sync.state.log@.len() == 0,
            c.sync.phase == Phase::Disconnected,
            c.sync.local_user is None,
            c.bus.subs@.len() == 0,
            c.bus.wf(),
    {
        Chat { sync: Synchronizer::new(), bus: Bus::new() }
    }

    /// Starts the connection: records the username and returns the encoded
    /// `Register` envelope, ready for the transport to send.
    pub fn connect(&mut self, username: &str) -> (r: String)
        requires
            old(self).sync.phase == Phase::Disconnected,
        ensures
            final(self).sync.state.roster@ == old(self).sync.state.roster@,
            final(self).sync.state.log@ == old(self).sync.state.log@,
            final(self).sync.phase == Phase::Registering,
            final(self).sync.local_user matches Some(u) && u@ == username@,
            final(self).bus == old(self).bus,
            r@ == envelope_text(
                MsgTypes::Register,
                Option::None,
                Option::Some(username@),
            ),
    {
        let env = self.sync.on_connect(username);
        encode(&env)
    }

    /// Handles one raw inbound line: decodes it, applies the envelope, and
    /// publishes the resulting notification, if any, to every observer.
    /// Text that does not decode is dropped: no state change, no
    /// notification.  Returns what was published.
    pub fn handle_inbound(&mut self, text: &str) -> (n: Option<Notification>)
        requires
            old(self).bus.wf(),
        ensures
            final(self).bus.wf(),
            final(self).sync.local_user == old(self).sync.local_user,
            final(self).bus.next_id == old(self).bus.next_id,
            match n {
                Option::Some(nn) => publish_step(old(self).bus.subs@, nn, final(self).bus.subs@),
                Option::None => final(self).bus.subs@ == old(self).bus.subs@,
            },
            match decode_spec(text@) {
                Option::None => final(self).sync == old(self).sync && n is None,
                Option::Some((k, l, t)) => {
                    &&& k == MsgTypes::Users ==> final(self).sync.state.log@ == old(
                        self,
                    ).sync.state.log@ && roster_matches(
                        final(self).sync.state.roster@,
                        names_of_list(l),
                    ) && n == Some(Notification::RosterChanged)
                    &&& k == MsgTypes::Register ==> final(self).sync.state.roster@ == old(
                        self,
                    ).sync.state.roster@ && final(self).sync.state.log@ == old(
                        self,
                    ).sync.state.log@ && n is None
                    &&& k == MsgTypes::Message ==> match t {
                        Option::Some(tx) => match decode_msg_spec(tx) {
                            Option::Some((f, b)) => final(self).sync.state.roster@ == old(
                                self,
                            ).sync.state.roster@ && log_appended(
                                old(self).sync.state.log@,
                                final(self).sync.state.log@,
                                f,
                                b,
                            ) && n == Some(Notification::MessageReceived),
                            Option::None => final(self).sync.state.roster@ == old(
                                self,
                            ).sync.state.roster@ && final(self).sync.state.log@ == old(
                                self,
                            ).sync.state.log@ && n is None,
                        },
                        Option::None => final(self).sync.state.roster@ == old(
                            self,
                        ).sync.state.roster@ && final(self).sync.state.log@ == old(
                            self,
                        ).sync.state.log@ && n is None,
                    }
                },
            },
    {
        match decode(text) {
            Err(_) => Option::None,
            Ok(env) => {
                let n = self.sync.on_inbound_envelope(env);
                match n {
                    Option::Some(nn) => {
                        self.bus.publish(nn);
                        Option::Some(nn)
                    },
                    Option::None => Option::None,
                }
            },
        }
    }

    /// Encodes an outbound message envelope for a message body, with the
    /// connected username as sender.  The local state is untouched: the
    /// message reaches the log only through the server's echo.  Without a
    /// connected username there is nothing to send.
    pub fn submit_outbound(&self, body: &str) -> (r: Option<String>)
        ensures
            match self.sync.local_user {
                Option::Some(u) => r matches Some(s) && s@ == envelope_text(
                    MsgTypes::Message,
                    Option::None,
                    Option::Some(message_payload_text(u@, body@)),
                ),
                Option::None => r is None,
            },
    {
        match self.sync.submit_outbound_message(body) {
            Option::Some(env) => Option::Some(encode(&env)),
            Option::None => Option::None,
        }
    }

    /// The avatar to render for a message's sender: the first roster entry
    /// with exactly that name, or the placeholder.
    pub fn avatar_for_sender(&self, name: &str) -> (r: String)
        ensures
            r@ == crate::sync::lookup_avatar(self.sync.state.roster@, name@),
    {
        self.sync.avatar_for_sender(name)
    }
}

} // verus!
