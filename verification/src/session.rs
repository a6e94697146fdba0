//! Session reconciler and command emitter.
//!
//! The reconciler owns the session state — the participant roster and the
//! message history — and applies inbound frames to it one at a time: a
//! `users` envelope replaces the roster wholesale, a `message` envelope
//! appends to the history, everything else (a `register` envelope, an
//! unrecognized or malformed frame) changes nothing.  A malformed frame is
//! isolated to itself: processing continues with the next frame.  The
//! emitter builds the outbound envelopes for the two user intents,
//! registration and chat submission, both fire-and-forget.
//!
//! A history entry is kept even when its sender is absent from the current
//! roster: the history is append-only and independent of roster snapshots,
//! and a view that cannot resolve the sender renders a placeholder profile
//! rather than faulting.

use vstd::prelude::*;

use crate::codec::{
    chars_of, decode, decode_entry, encode, sp_entry, sp_env, spec_env, EntryModel, EnvModel,
    MessageData, MsgTypes, WebSocketMessage,
};

verus! {

/// A roster entry: a participant's name and avatar location.
#[derive(Clone)]
pub struct UserProfile {
    pub name: String,
    pub avatar: String,
}

/// Mathematical model of a roster entry.
#[verifier::ext_equal]
pub ghost struct ProfileModel {
    pub name: Seq<char>,
    pub avatar: Seq<char>,
}

impl View for UserProfile {
    type V = ProfileModel;

    open spec fn view(&self) -> ProfileModel {
        ProfileModel { name: self.name@, avatar: self.avatar@ }
    }
}

impl DeepView for UserProfile {
    type V = ProfileModel;

    open spec fn deep_view(&self) -> ProfileModel {
        self@
    }
}

/// The avatar service location: one fixed template, the same for every
/// identity.
pub open spec fn avatar_url_spec() -> Seq<char> {
    "https://api.dicebear.com/9.x/notionists-neutral/svg"@
}

/// Returns the avatar location for a roster entry.
pub fn avatar_url() -> (r: String)
    ensures
        r@ == avatar_url_spec(),
{
    String::from_str("https://api.dicebear.com/9.x/notionists-neutral/svg")
}

/// The roster derived from a list of names: one profile per name, in
/// server-provided order, each with the fixed avatar.
pub open spec fn profiles_of(names: Seq<Seq<char>>) -> Seq<ProfileModel> {
    names.map_values(|n: Seq<char>| ProfileModel { name: n, avatar: avatar_url_spec() })
}

/// The array payload of a `users` envelope, with an absent payload standing
/// for the empty roster.
pub open spec fn arr_or_empty(a: Option<Seq<Seq<char>>>) -> Seq<Seq<char>> {
    match a {
        Some(x) => x,
        None => Seq::empty(),
    }
}

/// The events the reconciler reacts to: an inbound frame delivered by the
/// event bus, a chat submission with the typed text, and the theme toggle.
pub enum Msg {
    HandleMsg(String),
    SubmitMessage(String),
    ToggleDarkMode,
}

/// Mathematical model of an event.
#[verifier::ext_equal]
pub ghost enum MsgModel {
    HandleMsg(Seq<char>),
    SubmitMessage(Seq<char>),
    ToggleDarkMode,
}

impl View for Msg {
    type V = MsgModel;

    open spec fn view(&self) -> MsgModel {
        match self {
            Msg::HandleMsg(s) => MsgModel::HandleMsg(s@),
            Msg::SubmitMessage(s) => MsgModel::SubmitMessage(s@),
            Msg::ToggleDarkMode => MsgModel::ToggleDarkMode,
        }
    }
}

/// The session state: the roster, the append-only history, and the theme
/// flag.
pub struct Chat {
    pub users: Vec<UserProfile>,
    pub messages: Vec<MessageData>,
    pub dark_mode: bool,
}

/// Mathematical model of the session state.
#[verifier::ext_equal]
pub ghost struct ChatModel {
    pub users: Seq<ProfileModel>,
    pub messages: Seq<EntryModel>,
    pub dark_mode: bool,
}

impl View for Chat {
    type V = ChatModel;

    open spec fn view(&self) -> ChatModel {
        ChatModel {
            users: self.users.deep_view(),
            messages: self.messages.deep_view(),
            dark_mode: self.dark_mode,
        }
    }
}

/// The state of a freshly created session: empty roster, empty history,
/// light theme.
pub open spec fn init_model() -> ChatModel {
    ChatModel { users: Seq::empty(), messages: Seq::empty(), dark_mode: false }
}

/// The registration envelope for `name`.
pub open spec fn register_model(name: Seq<char>) -> EnvModel {
    EnvModel { kind: MsgTypes::Register, arr: None, dat: Some(name) }
}

/// The chat submission envelope for `text`: the payload is the raw typed
/// text, not a history entry — the remote peer stamps the sender identity
/// before relaying.
pub open spec fn submit_model(text: Seq<char>) -> EnvModel {
    EnvModel { kind: MsgTypes::Message, arr: None, dat: Some(text) }
}

/// The transition function of the session: from a state and an event to
/// the next state, whether consumers must re-read the state, and the
/// outbound frame, if any.
pub open spec fn step_model(m: ChatModel, msg: MsgModel) -> (ChatModel, bool, Option<Seq<char>>) {
    match msg {
        MsgModel::ToggleDarkMode => (
            ChatModel { dark_mode: !m.dark_mode, ..m },
            true,
            None,
        ),
        MsgModel::SubmitMessage(text) => (m, false, Some(spec_env(submit_model(text)))),
        MsgModel::HandleMsg(s) => match sp_env(s) {
            None => (m, false, None),
            Some(env) => match env.kind {
                MsgTypes::Users => (
                    ChatModel { users: profiles_of(arr_or_empty(env.arr)), ..m },
                    true,
                    None,
                ),
                MsgTypes::Message => match env.dat {
                    Some(d) => match sp_entry(d) {
                        Some(entry) => (
                            ChatModel { messages: m.messages.push(entry), ..m },
                            true,
                            None,
                        ),
                        None => (m, false, None),
                    },
                    None => (m, false, None),
                },
                MsgTypes::Register => (m, false, None),
            },
        },
    }
}

/// Iterated transitions over a sequence of events, outputs discarded.
pub open spec fn run_model(m: ChatModel, msgs: Seq<MsgModel>) -> ChatModel
    decreases msgs.len(),
{
    if msgs.len() == 0 {
        m
    } else {
        run_model(step_model(m, msgs[0]).0, msgs.drop_first())
    }
}

/// A `register` envelope received from the peer produces no observable
/// state change, no re-read signal and no outbound frame: that kind is
/// client-to-server only.
pub proof fn lemma_register_no_change(m: ChatModel, s: Seq<char>)
    requires
        sp_env(s) matches Some(env) && env.kind == MsgTypes::Register,
    ensures
        step_model(m, MsgModel::HandleMsg(s)) == (m, false, None::<Seq<char>>),
{
}

/// A frame that does not decode — malformed text or an unrecognized kind —
/// produces no observable state change, no re-read signal and no outbound
/// frame: the failure is isolated to the frame.
pub proof fn lemma_undecodable_no_change(m: ChatModel, s: Seq<char>)
    requires
        sp_env(s) is None,
    ensures
        step_model(m, MsgModel::HandleMsg(s)) == (m, false, None::<Seq<char>>),
{
}

/// Full-replace roster law: after processing any non-empty sequence of
/// `users` frames, the roster equals exactly the name list of the last
/// frame — one profile per name, in order, with the fixed avatar —
/// whatever the prior roster held.
pub proof fn lemma_roster_last_frame(m: ChatModel, frames: Seq<Seq<char>>)
    requires
        frames.len() > 0,
        forall|k: int|
            0 <= k < frames.len() ==> ((#[trigger] sp_env(frames[k])) matches Some(env)
                && env.kind == MsgTypes::Users),
    ensures
        ({
            let names = arr_or_empty(sp_env(frames.last())->Some_0.arr);
            let u = run_model(m, frames.map_values(|f: Seq<char>| MsgModel::HandleMsg(f))).users;
            u.len() == names.len() && (forall|j: int|
                0 <= j < names.len() ==> u[j] == (ProfileModel {
                    name: names[j],
                    avatar: avatar_url_spec(),
                }))
        }),
    decreases frames.len(),
{
    let msgs = frames.map_values(|f: Seq<char>| MsgModel::HandleMsg(f));
    assert(msgs[0] == MsgModel::HandleMsg(frames[0]));
    assert(sp_env(frames[0]) matches Some(env) && env.kind == MsgTypes::Users);
    let m1 = step_model(m, msgs[0]).0;
    if frames.len() == 1 {
        assert(msgs.drop_first() =~= Seq::<MsgModel>::empty());
        assert(run_model(m1, msgs.drop_first()) == m1);
        assert(run_model(m, msgs) == m1);
        assert(frames.last() == frames[0]);
    } else {
        let rest = frames.drop_first();
        assert(msgs.drop_first() =~= rest.map_values(|f: Seq<char>| MsgModel::HandleMsg(f)));
        assert(forall|k: int| 0 <= k < rest.len() ==> rest[k] == frames[k + 1]);
        assert(forall|k: int|
            0 <= k < rest.len() ==> ((#[trigger] sp_env(rest[k])) matches Some(env)
                && env.kind == MsgTypes::Users));
        lemma_roster_last_frame(m1, rest);
        assert(rest.last() == frames.last());
        assert(run_model(m, msgs) == run_model(m1, msgs.drop_first()));
    }
}

/// The history entry a valid server-to-client `message` frame carries.
pub open spec fn entry_of(f: Seq<char>) -> EntryModel {
    sp_entry(sp_env(f)->Some_0.dat->Some_0)->Some_0
}

/// Whether a frame is a well-formed `message` envelope whose payload
/// decodes as a history entry.
pub open spec fn valid_message_frame(f: Seq<char>) -> bool {
    &&& sp_env(f) matches Some(env)
    &&& sp_env(f)->Some_0.kind == MsgTypes::Message
    &&& sp_env(f)->Some_0.dat matches Some(d)
    &&& sp_entry(sp_env(f)->Some_0.dat->Some_0) is Some
}

/// Append-only history law: after processing N valid `message` frames, the
/// history holds everything it held before, unchanged and in place,
/// followed by the N carried entries in arrival order — so its length grew
/// by exactly N.
pub proof fn lemma_history_order(m: ChatModel, frames: Seq<Seq<char>>)
    requires
        forall|k: int| 0 <= k < frames.len() ==> valid_message_frame(#[trigger] frames[k]),
    ensures
        ({
            let h = run_model(m, frames.map_values(|f: Seq<char>| MsgModel::HandleMsg(f))).messages;
            &&& h.len() == m.messages.len() + frames.len()
            &&& (forall|j: int| 0 <= j < m.messages.len() ==> h[j] == m.messages[j])
            &&& (forall|j: int|
                0 <= j < frames.len() ==> h[m.messages.len() + j] == entry_of(frames[j]))
        }),
    decreases frames.len(),
{
    let msgs = frames.map_values(|f: Seq<char>| MsgModel::HandleMsg(f));
    if frames.len() == 0 {
        assert(run_model(m, msgs) == m);
    } else {
        assert(msgs[0] == MsgModel::HandleMsg(frames[0]));
        assert(valid_message_frame(frames[0]));
        let m1 = step_model(m, msgs[0]).0;
        assert(m1.messages == m.messages.push(entry_of(frames[0])));
        let rest = frames.drop_first();
        assert(msgs.drop_first() =~= rest.map_values(|f: Seq<char>| MsgModel::HandleMsg(f)));
        assert(forall|k: int| 0 <= k < rest.len() ==> rest[k] == frames[k + 1]);
        assert(forall|k: int| 0 <= k < rest.len() ==> valid_message_frame(#[trigger] rest[k]));
        lemma_history_order(m1, rest);
        assert(run_model(m, msgs) == run_model(m1, msgs.drop_first()));
        let h = run_model(m, msgs).messages;
        assert forall|j: int| 0 <= j < frames.len() implies h[m.messages.len() + j] == entry_of(
            frames[j],
        ) by {
            if j == 0 {
                assert(h[m1.messages.len() - 1] == m1.messages[m1.messages.len() - 1]);
            } else {
                assert(h[m1.messages.len() + (j - 1)] == entry_of(rest[j - 1]));
            }
        }
    }
}

/// Builds the envelope registering identity `name`.
pub fn register_envelope(name: &str) -> (e: WebSocketMessage)
    ensures
        e@ == register_model(name@),
{
    let e = WebSocketMessage {
        message_type: MsgTypes::Register,
        data_array: None,
        data: Some(String::from_str(name)),
    };
    proof {
        assert(e@ =~= register_model(name@));
    }
    e
}

/// Builds the envelope submitting the chat text `text`.
pub fn submit_envelope(text: &str) -> (e: WebSocketMessage)
    ensures
        e@ == submit_model(text@),
{
    let e = WebSocketMessage {
        message_type: MsgTypes::Message,
        data_array: None,
        data: Some(String::from_str(text)),
    };
    proof {
        assert(e@ =~= submit_model(text@));
    }
    e
}

/// A message text is classified as media exactly when it ends in `.gif`;
/// everything else is plain text.
pub open spec fn is_media_spec(s: Seq<char>) -> bool {
    s.len() >= 4 && s[s.len() - 4] == '.' && s[s.len() - 3] == 'g' && s[s.len() - 2] == 'i'
        && s[s.len() - 1] == 'f'
}

/// Classifies a message text as media or plain text.
pub fn is_media(text: &str) -> (r: bool)
    ensures
        r == is_media_spec(text@),
{
    let v = chars_of(text);
    let n = v.len();
    if n < 4 {
        return false;
    }
    v[n - 4] == '.' && v[n - 3] == 'g' && v[n - 2] == 'i' && v[n - 1] == 'f'
}

impl Chat {
    /// Creates the session state and the registration frame to send.  The
    /// session starts "joined": registration is fire-and-forget, carried by
    /// the returned frame, and no acknowledgement is awaited.
    pub fn create(username: &str) -> (r: (Chat, String))
        ensures
            r.0@ == init_model(),
            r.1@ == spec_env(register_model(username@)),
    {
        let env = register_envelope(username);
        let frame = encode(&env);
        let chat = Chat { users: Vec::new(), messages: Vec::new(), dark_mode: false };
        proof {
            assert(chat@ =~= init_model());
        }
        (chat, frame)
    }

    /// Applies one event to the session: the new state, the re-read signal
    /// and the outbound frame are exactly those of `step_model`.  A frame
    /// that fails to decode — at the envelope or at the inner history entry
    /// — is skipped: the state is unchanged and processing can continue.
    pub fn update(&mut self, msg: Msg) -> (r: (bool, Option<String>))
        ensures
            ({
                let (m2, redraw, out) = step_model(old(self)@, msg@);
                &&& final(self)@ == m2
                &&& r.0 == redraw
                &&& match (r.1, out) {
                    (Some(f), Some(o)) => f@ == o,
                    (None, None) => true,
                    _ => false,
                }
            }),
    {
        match msg {
            Msg::ToggleDarkMode => {
                self.dark_mode = !self.dark_mode;
                proof {
                    assert(self@ =~= step_model(old(self)@, MsgModel::ToggleDarkMode).0);
                }
                (true, None)
            },
            Msg::SubmitMessage(text) => {
                let env = submit_envelope(text.as_str());
                let frame = encode(&env);
                (false, Some(frame))
            },
            Msg::HandleMsg(s) => {
                match decode(s.as_str()) {
                    Err(_) => (false, None),
                    Ok(env) => match env.message_type {
                        MsgTypes::Users => {
                            let ghost envm = env@;
                            let names: Vec<String> = match env.data_array {
                                Some(v) => v,
                                None => Vec::new(),
                            };
                            proof {
                                assert(names.deep_view() =~= arr_or_empty(envm.arr));
                            }
                            let mut users: Vec<UserProfile> = Vec::new();
                            let mut i: usize = 0;
                            while i < names.len()
                                invariant
                                    i <= names.len(),
                                    users.deep_view().len() == i,
                                    forall|t: int|
                                        0 <= t < i ==> users.deep_view()[t] == (ProfileModel {
                                            name: names.deep_view()[t],
                                            avatar: avatar_url_spec(),
                                        }),
                                decreases names.len() - i,
                            {
                                let ghost pred = users.deep_view();
                                let ghost prev = users@;
                                users.push(
                                    UserProfile { name: names[i].clone(), avatar: avatar_url() },
                                );
                                proof {
                                    assert forall|t: int| 0 <= t < i + 1 implies users.deep_view()[t]
                                        == (ProfileModel {
                                        name: names.deep_view()[t],
                                        avatar: avatar_url_spec(),
                                    }) by {
                                        assert(users.deep_view()[t] == users@[t].deep_view());
                                        if t < i {
                                            assert(users@[t] == prev[t]);
                                            assert(pred[t] == prev[t].deep_view());
                                        } else {
                                            assert(names.deep_view()[t] == names@[t].deep_view());
                                        }
                                    }
                                }
                                i += 1;
                            }
                            self.users = users;
                            proof {
                                assert(self.users.deep_view() =~= profiles_of(names.deep_view()));
                                assert(self@ =~= step_model(old(self)@, MsgModel::HandleMsg(s@)).0);
                            }
                            (true, None)
                        },
                        MsgTypes::Message => match env.data {
                            None => (false, None),
                            Some(d) => match decode_entry(d.as_str()) {
                                Err(_) => (false, None),
                                Ok(entry) => {
                                    let ghost mv = self.messages.deep_view();
                                    let ghost ev = entry@;
                                    self.messages.push(entry);
                                    proof {
                                        assert(self.messages.deep_view() =~= mv.push(ev));
                                        assert(self@ =~= step_model(
                                            old(self)@,
                                            MsgModel::HandleMsg(s@),
                                        ).0);
                                    }
                                    (true, None)
                                },
                            },
                        },
                        MsgTypes::Register => (false, None),
                    },
                }
            },
        }
    }
}

} // verus!
