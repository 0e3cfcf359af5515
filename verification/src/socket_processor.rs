//! The session: what one connection does with each frame it receives.
//!
//! A session starts when the first frame of a connection authenticates. From
//! then on every event (an inbound frame, an opened document, presence from a
//! document's worker) is answered by a reaction that tells the caller what to
//! put on the wire or whom to ask. The session itself never waits for anything.

use crate::authorizer::{is_generated_token, Authorizer, AuthorizerView, Entry, EntryView};
use crate::doc_id::DocId;
use crate::doc_manager::{DocHandle, DocHandleView, OpenRequest, OpenRequestView};
use crate::frame::{
    presence_views, Frame, FrameType, FrameTypeView, FrameView, PresenceFrame, PresenceFrameView,
};
use crate::json::clone_optional_value;
use crate::moment::Moment;
use crate::text::same_text;
use std::collections::HashMap;
use vstd::prelude::*;

verus! {

broadcast use vstd::std_specs::hash::group_hash_axioms;

/// What a session asks of its caller in answer to one event.
#[derive(Debug, PartialEq)]
pub enum Reaction {
    /// Put this frame on the wire.
    Reply(Frame),
    /// Open `doc` with the document manager, hand the handle to
    /// [`State::opened`], then put `reply` on the wire.
    Open { doc: DocId, request: OpenRequest, reply: Frame },
    /// Hand this stamped presence frame to the worker of `doc`. If the worker
    /// has gone the session is over.
    Forward { doc: DocId, last_update: Moment, frame: PresenceFrame },
    /// Nothing to do.
    Ignore,
}

/// What becomes of a session once its caller has tried to do what a reaction
/// asked.
#[derive(Clone, Copy, Debug, PartialEq, Eq, Structural)]
pub enum Fate {
    /// The session goes on with the next event.
    GoOn,
    /// The session is over: the connection is closed.
    Close,
}

/// A session goes on when what the reaction asked was done. A frame that could
/// not be written and a presence frame that could not be handed to its worker
/// end the session; a reaction that asks nothing cannot fail.
pub open spec fn fate_after(reaction: ReactionView, done: bool) -> Fate {
    if done || reaction is Ignore {
        Fate::GoOn
    } else {
        Fate::Close
    }
}

/// The mathematical value of a [`Reaction`].
pub enum ReactionView {
    Reply(FrameView),
    Open { doc: DocId, request: OpenRequestView, reply: FrameView },
    Forward { doc: DocId, last_update: Moment, frame: PresenceFrameView },
    Ignore,
}

impl View for Reaction {
    type V = ReactionView;

    open spec fn view(&self) -> ReactionView {
        match *self {
            Reaction::Reply(frame) => ReactionView::Reply(frame@),
            Reaction::Open { doc, request, reply } => ReactionView::Open {
                doc,
                request: request@,
                reply: reply@,
            },
            Reaction::Forward { doc, last_update, frame } => ReactionView::Forward {
                doc,
                last_update,
                frame: frame@,
            },
            Reaction::Ignore => ReactionView::Ignore,
        }
    }
}

impl Reaction {
    /// Decides whether the session goes on after its caller tried to do what
    /// this reaction asked; `done` says whether that worked.
    pub fn settle(&self, done: bool) -> (fate: Fate)
        ensures
            fate == fate_after(self@, done),
    {
        if done {
            return Fate::GoOn;
        }
        match self {
            Reaction::Ignore => Fate::GoOn,
            _ => Fate::Close,
        }
    }
}

impl ReactionView {
    /// The frame that this reaction puts on the wire, if any.
    pub open spec fn frame(self) -> Option<FrameView> {
        match self {
            ReactionView::Reply(frame) => Some(frame),
            ReactionView::Open { reply, .. } => Some(reply),
            _ => None,
        }
    }

    /// The token that this reaction hands out, if it answers a mint request.
    pub open spec fn minted(self) -> Seq<char> {
        match self {
            ReactionView::Reply(
                FrameView { frame: FrameTypeView::MintTokenResponse { token }, .. },
            ) => token,
            _ => Seq::empty(),
        }
    }
}

/// How the first frame of a connection was received.
#[derive(Debug)]
pub enum Accepted {
    /// The frame authenticated: send `reply` and go on with `state`.
    Active { state: State, reply: Frame },
    /// The frame did not authenticate: send `reply` if possible, then close.
    Rejected { reply: Frame },
}

/// The state of a session as mathematics.
pub struct StateView {
    /// Whom the connection authenticated as.
    pub auth: EntryView,
    /// The documents the session has open, each with its handle.
    pub open: Map<DocId, DocHandleView>,
    /// The id of the next frame the server sends on this connection.
    pub next_frame_id: i32,
}

/// The state with which a session starts: the first reply has been numbered 1.
pub open spec fn initial_state(auth: EntryView) -> StateView {
    StateView { auth, open: Map::empty(), next_frame_id: 2 }
}

/// The reply to the first frame of a connection.
pub open spec fn first_reply(frame: FrameView, payload: FrameTypeView) -> FrameView {
    FrameView { id: 1, reply_to: Some(frame.id), frame: payload }
}

/// Whom the first frame of a connection authenticates as, or the message that
/// rejects it.
pub open spec fn authentication(
    authorizer: AuthorizerView,
    frame: FrameView,
    now: Moment,
) -> Result<EntryView, Seq<char>> {
    match frame.frame {
        FrameTypeView::Authenticate { token } => match authorizer.authenticate(token, now) {
            Some(entry) => Ok(entry),
            None => Err("invalid token"@),
        },
        _ => Err("Expected Authenticate frame"@),
    }
}

impl StateView {
    /// Whether `handle` is a handle of this session's user.
    pub open spec fn owns(self, handle: DocHandleView) -> bool {
        &&& handle.user == self.auth.user
        &&& handle.user_info == self.auth.info
    }

    /// Every handle is filed under its own document and is a handle of the
    /// session's user.
    pub open spec fn wf(self) -> bool {
        &&& self.next_frame_id >= 1
        &&& forall|doc: DocId| #[trigger]
            self.open.contains_key(doc) ==> self.open[doc].doc == doc && self.owns(self.open[doc])
    }

    /// Whether the session belongs to root.
    pub open spec fn is_root(self) -> bool {
        self.auth.user == "root"@
    }

    /// The next frame of the server, answering the frame numbered `reply_to`.
    pub open spec fn reply(self, reply_to: i32, payload: FrameTypeView) -> FrameView {
        FrameView { id: self.next_frame_id, reply_to: Some(reply_to), frame: payload }
    }

    /// The state after one more frame was numbered.
    pub open spec fn advanced(self) -> StateView {
        StateView { next_frame_id: (self.next_frame_id + 1) as i32, ..self }
    }

    /// The state after `handle` was filed under its document.
    pub open spec fn with_handle(self, handle: DocHandleView) -> StateView {
        StateView { open: self.open.insert(handle.doc, handle), ..self }
    }

    /// What the session does with an inbound frame: a reaction, or the message of
    /// the error that the frame runs into. `token` is the token that is handed
    /// out if the frame is a permitted mint request. Only root mints and revokes,
    /// and nobody mints or revokes for root.
    pub open spec fn process(self, frame: FrameView, now: Moment, token: Seq<char>) -> Result<
        ReactionView,
        Seq<char>,
    > {
        match frame.frame {
            FrameTypeView::Error { .. } => Err("unexpected error frame"@),
            FrameTypeView::MintToken { user, .. } => {
                if !self.is_root() {
                    Err("forbidden"@)
                } else if user == "root"@ {
                    Err("cannot use MintToken on root"@)
                } else {
                    Ok(
                        ReactionView::Reply(
                            self.reply(frame.id, FrameTypeView::MintTokenResponse { token }),
                        ),
                    )
                }
            },
            FrameTypeView::RevokeTokensForUser { user } => {
                if !self.is_root() {
                    Err("forbidden"@)
                } else if user == "root"@ {
                    Err("cannot use RevokeTokensForUser on root"@)
                } else {
                    Ok(ReactionView::Reply(self.reply(frame.id, FrameTypeView::Okay)))
                }
            },
            FrameTypeView::Open { doc } => Ok(
                ReactionView::Open {
                    doc,
                    request: OpenRequestView { user: self.auth.user, user_info: self.auth.info },
                    reply: self.reply(frame.id, FrameTypeView::Okay),
                },
            ),
            FrameTypeView::UpdatePresence { doc, presence } => {
                if self.open.contains_key(doc) {
                    Ok(
                        ReactionView::Forward {
                            doc,
                            last_update: now,
                            frame: self.open[doc].presence_frame(presence),
                        },
                    )
                } else {
                    Err("doc not open"@)
                }
            },
            _ => Ok(ReactionView::Ignore),
        }
    }

    /// The reaction to an inbound frame, where an error has become the error
    /// frame that reports it.
    pub open spec fn react(self, frame: FrameView, now: Moment, token: Seq<char>) -> ReactionView {
        match self.process(frame, now, token) {
            Ok(reaction) => reaction,
            Err(error) => ReactionView::Reply(self.reply(frame.id, FrameTypeView::Error { error })),
        }
    }

    /// The state after a reaction: a reaction that holds a frame uses up one id.
    pub open spec fn after(self, reaction: ReactionView) -> StateView {
        if reaction.frame().is_some() {
            self.advanced()
        } else {
            self
        }
    }

    /// What an inbound frame does to the token authority.
    pub open spec fn authority_after(
        self,
        authorizer: AuthorizerView,
        frame: FrameView,
        now: Moment,
        token: Seq<char>,
    ) -> AuthorizerView {
        match frame.frame {
            FrameTypeView::MintToken { user, info, lifetime_seconds } if self.is_root() && user
                != "root"@ => {
                authorizer.mint(
                    token,
                    EntryView { user, expiry: now.plus_seconds(lifetime_seconds), info },
                )
            },
            FrameTypeView::RevokeTokensForUser { user } if self.is_root() => authorizer.revoke(
                user,
            ),
            _ => authorizer,
        }
    }
}

/// The presence frames of a list of batches, batch after batch.
pub open spec fn coalesced(batches: Seq<Vec<PresenceFrame>>) -> Seq<PresenceFrameView>
    decreases batches.len(),
{
    if batches.len() == 0 {
        Seq::empty()
    } else {
        coalesced(batches.drop_last()) + presence_views(batches.last()@)
    }
}

/// What a session is woken by.
#[derive(Debug, PartialEq)]
pub enum Event {
    /// A frame arrived at this moment.
    Frame(Frame, Moment),
    /// The document manager returned this handle for an open request.
    Opened(DocHandle),
    /// Presence batches arrived from document workers: the first, and those
    /// that were ready right behind it.
    Presence(Vec<PresenceFrame>, Vec<Vec<PresenceFrame>>),
}

impl StateView {
    /// The `Presence` frame that carries the given batches.
    pub open spec fn presence_frame(
        self,
        first: Seq<PresenceFrame>,
        more: Seq<Vec<PresenceFrame>>,
    ) -> FrameView {
        FrameView {
            id: self.next_frame_id,
            reply_to: None,
            frame: FrameTypeView::Presence { updates: presence_views(first) + coalesced(more) },
        }
    }

    /// The reaction to one event. `token` is the token that is handed out if the
    /// event is a permitted mint request.
    pub open spec fn on_event(self, event: Event, token: Seq<char>) -> ReactionView {
        match event {
            Event::Frame(frame, now) => self.react(frame@, now, token),
            Event::Opened(_) => ReactionView::Ignore,
            Event::Presence(first, more) => ReactionView::Reply(
                self.presence_frame(first@, more@),
            ),
        }
    }

    /// The state after one event.
    pub open spec fn step(self, event: Event, token: Seq<char>) -> StateView {
        match event {
            Event::Opened(handle) => self.with_handle(handle@),
            _ => self.after(self.on_event(event, token)),
        }
    }

    /// The token authority after one event.
    pub open spec fn authority_step(
        self,
        authorizer: AuthorizerView,
        event: Event,
        token: Seq<char>,
    ) -> AuthorizerView {
        match event {
            Event::Frame(frame, now) => self.authority_after(authorizer, frame@, now, token),
            _ => authorizer,
        }
    }

    /// The session and the token authority after a sequence of events, where
    /// `reactions` holds the reaction to each event: a minted token is read off
    /// the reaction that hands it out.
    pub open spec fn trace(
        self,
        authorizer: AuthorizerView,
        events: Seq<Event>,
        reactions: Seq<ReactionView>,
    ) -> (StateView, AuthorizerView)
        decreases events.len(),
    {
        if events.len() == 0 {
            (self, authorizer)
        } else {
            let before = self.trace(authorizer, events.drop_last(), reactions.drop_last());
            let token = reactions.last().minted();
            (
                before.0.step(events.last(), token),
                before.0.authority_step(before.1, events.last(), token),
            )
        }
    }

    /// A session that does not belong to root leaves the token authority as it
    /// is, whatever frame it receives: minting and revoking are answered with
    /// `forbidden`.
    pub proof fn lemma_only_root_changes_the_authority(
        self,
        authorizer: AuthorizerView,
        frame: FrameView,
        now: Moment,
        token: Seq<char>,
    )
        requires
            !self.is_root(),
        ensures
            self.authority_after(authorizer, frame, now, token) == authorizer,
            frame.frame is MintToken || frame.frame is RevokeTokensForUser ==> self.process(
                frame,
                now,
                token,
            ) == Err::<ReactionView, Seq<char>>("forbidden"@),
    {
    }

    /// An event gets one reaction, and a reaction holds at most one frame. A frame
    /// that answers something answers the inbound frame of its own event, and a
    /// frame that carries presence answers nothing.
    pub proof fn lemma_replies_answer_their_own_event(self, event: Event, token: Seq<char>)
        ensures
            answers_inbound(self.on_event(event, token), event),
            event is Presence ==> self.on_event(event, token).frame().unwrap().reply_to.is_none(),
            event is Opened ==> self.on_event(event, token).frame().is_none(),
            event is Frame ==> match self.on_event(event, token).frame() {
                Some(frame) => frame.reply_to == Some(event->Frame_0.id),
                None => true,
            },
    {
    }

    /// A frame that the session puts on the wire carries the session's next
    /// frame id, and uses it up.
    pub proof fn lemma_frames_take_the_next_id(self, event: Event, token: Seq<char>)
        ensures
            match self.on_event(event, token).frame() {
                Some(frame) => frame.id == self.next_frame_id && self.step(event, token)
                    == self.advanced(),
                None => self.step(event, token).next_frame_id == self.next_frame_id,
            },
    {
    }

    /// What a session forwards to a worker is the presence of its own user: the
    /// frame carries the client id of the handle on the document, the document,
    /// the session's user and info, and the presence as it came.
    pub proof fn lemma_forward_carries_the_session_user(
        self,
        frame: FrameView,
        now: Moment,
        token: Seq<char>,
    )
        requires
            self.wf(),
            frame.frame is UpdatePresence,
            self.open.contains_key(frame.frame->UpdatePresence_doc),
        ensures
            self.process(frame, now, token) == Ok::<ReactionView, Seq<char>>(
                ReactionView::Forward {
                    doc: frame.frame->UpdatePresence_doc,
                    last_update: now,
                    frame: PresenceFrameView {
                        client: self.open[frame.frame->UpdatePresence_doc].id,
                        doc: frame.frame->UpdatePresence_doc,
                        user: self.auth.user,
                        info: self.auth.info,
                        presence: Some(frame.frame->UpdatePresence_presence),
                    },
                },
            ),
            self.after(self.react(frame, now, token)) == self,
    {
    }

    /// Root is not minted for: whoever asks, a request to mint a token for the
    /// user `root` is answered with an error and leaves the token authority as
    /// it is.
    pub proof fn lemma_no_token_is_minted_for_root(
        self,
        authorizer: AuthorizerView,
        frame: FrameView,
        now: Moment,
        token: Seq<char>,
    )
        requires
            frame.frame is MintToken,
            frame.frame->MintToken_user == "root"@,
        ensures
            self.process(frame, now, token) is Err,
            self.authority_after(authorizer, frame, now, token) == authorizer,
    {
    }

    /// Opening a document twice is answered with `Ok` both times, and the
    /// document can be updated afterwards.
    pub proof fn lemma_open_twice(
        self,
        doc: DocId,
        first: FrameView,
        first_handle: DocHandleView,
        second: FrameView,
        second_handle: DocHandleView,
        update: FrameView,
        now: Moment,
    )
        requires
            first.frame == (FrameTypeView::Open { doc }),
            second.frame == (FrameTypeView::Open { doc }),
            first_handle.doc == doc,
            second_handle.doc == doc,
            update.frame is UpdatePresence,
            update.frame->UpdatePresence_doc == doc,
        ensures
            ({
                let first_reaction = self.react(first, now, Seq::empty());
                let once = self.after(first_reaction).with_handle(first_handle);
                let second_reaction = once.react(second, now, Seq::empty());
                let twice = once.after(second_reaction).with_handle(second_handle);
                &&& first_reaction.frame() == Some(self.reply(first.id, FrameTypeView::Okay))
                &&& second_reaction.frame() == Some(once.reply(second.id, FrameTypeView::Okay))
                &&& twice.open == self.open.insert(doc, second_handle)
                &&& twice.process(update, now, Seq::empty()) is Ok
                &&& twice.process(update, now, Seq::empty())->Ok_0 is Forward
            }),
    {
    }
}

/// A reaction answers nothing, or it answers the inbound frame of `event`: the
/// frame it puts on the wire names no frame in `reply_to` but that one.
pub open spec fn answers_inbound(reaction: ReactionView, event: Event) -> bool {
    match reaction.frame() {
        Some(FrameView { reply_to: Some(reply_to), .. }) => event is Frame && event->Frame_0.id
            == reply_to,
        _ => true,
    }
}

/// Whether the session can take `event`: a handle that the document manager
/// returns is one of the session's user.
pub open spec fn acceptable(auth: EntryView, event: Event) -> bool {
    event matches Event::Opened(handle) ==> handle@.user == auth.user && handle@.user_info
        == auth.info
}

/// The views of a list of reactions, in order.
pub open spec fn reaction_views(reactions: Seq<Reaction>) -> Seq<ReactionView> {
    reactions.map_values(|reaction: Reaction| reaction@)
}

/// The frames that a list of reactions puts on the wire, in order.
pub open spec fn sent_frames(reactions: Seq<ReactionView>) -> Seq<FrameView>
    decreases reactions.len(),
{
    if reactions.len() == 0 {
        Seq::empty()
    } else {
        match reactions.last().frame() {
            Some(frame) => sent_frames(reactions.drop_last()).push(frame),
            None => sent_frames(reactions.drop_last()),
        }
    }
}

/// One session: whom it authenticated as, which documents it has open, and the
/// id of the next frame it sends.
#[derive(Debug)]
pub struct State {
    auth: Entry,
    open: HashMap<u128, DocHandle>,
    next_frame_id: i32,
}

impl View for State {
    type V = StateView;

    closed spec fn view(&self) -> StateView {
        StateView {
            auth: self.auth@,
            open: Map::new(
                |doc: DocId| self.open@.contains_key(doc.0),
                |doc: DocId| self.open@[doc.0]@,
            ),
            next_frame_id: self.next_frame_id,
        }
    }
}

impl State {
    /// Receives the first frame of a connection. Only an `Authenticate` frame
    /// with a token that the authority accepts at `now` starts a session; the
    /// reply is numbered 1 either way.
    pub fn accept(frame: Frame, authorizer: &Authorizer, now: Moment) -> (accepted: Accepted)
        requires
            authorizer.wf(),
        ensures
            match authentication(authorizer@, frame@, now) {
                Ok(entry) => {
                    &&& accepted matches Accepted::Active { state, reply }
                    &&& state@ == initial_state(entry)
                    &&& state@.wf()
                    &&& reply@ == first_reply(frame@, FrameTypeView::Okay)
                },
                Err(error) => {
                    &&& accepted matches Accepted::Rejected { reply }
                    &&& reply@ == first_reply(frame@, FrameTypeView::Error { error })
                },
            },
    {
        let entry = match &frame.frame {
            FrameType::Authenticate { token } => {
                match authorizer.authenticate(token.as_str(), now) {
                    Some(entry) => Ok(entry),
                    None => Err("invalid token".to_owned()),
                }
            },
            _ => Err("Expected Authenticate frame".to_owned()),
        };
        match entry {
            Ok(auth) => {
                let state = State { auth, open: HashMap::new(), next_frame_id: 2 };
                assert(state@.open =~= Map::<DocId, DocHandleView>::empty());
                Accepted::Active { state, reply: Frame::new_reply(1, frame.id, FrameType::Okay) }
            },
            Err(error) => Accepted::Rejected {
                reply: Frame::new_reply(1, frame.id, FrameType::Error { error }),
            },
        }
    }

    /// The user the session authenticated as.
    pub fn user(&self) -> (user: &String)
        ensures
            user@ == self@.auth.user,
    {
        &self.auth.user
    }

    /// The info of the user the session authenticated as.
    pub fn info(&self) -> (info: &Option<serde_json::Value>)
        ensures
            *info == self@.auth.info,
    {
        &self.auth.info
    }

    /// Whether the session has `doc` open.
    pub fn is_open(&self, doc: DocId) -> (open: bool)
        ensures
            open == self@.open.contains_key(doc),
    {
        self.open.contains_key(&doc.0)
    }

    /// Whether the session can number one more frame: ids are 32 bits wide.
    pub fn can_send(&self) -> (room: bool)
        ensures
            room == (self@.next_frame_id < i32::MAX),
    {
        self.next_frame_id < i32::MAX
    }

    /// The `Ok` reply to the frame numbered `reply_to`.
    pub fn send_ok(&mut self, reply_to: i32) -> (frame: Frame)
        requires
            old(self)@.wf(),
            old(self)@.next_frame_id < i32::MAX,
        ensures
            final(self)@.wf(),
            final(self)@ == old(self)@.advanced(),
            frame@ == old(self)@.reply(reply_to, FrameTypeView::Okay),
    {
        let frame = Frame::new_reply(self.next_frame_id, reply_to, FrameType::Okay);
        self.next_frame_id = self.next_frame_id + 1;
        assert(self@.open =~= old(self)@.open);
        frame
    }

    /// The `Error` reply to the frame numbered `reply_to`.
    pub fn send_error(&mut self, reply_to: i32, message: String) -> (frame: Frame)
        requires
            old(self)@.wf(),
            old(self)@.next_frame_id < i32::MAX,
        ensures
            final(self)@.wf(),
            final(self)@ == old(self)@.advanced(),
            frame@ == old(self)@.reply(reply_to, FrameTypeView::Error { error: message@ }),
    {
        let frame = Frame::new_reply(
            self.next_frame_id,
            reply_to,
            FrameType::Error { error: message },
        );
        self.next_frame_id = self.next_frame_id + 1;
        assert(self@.open =~= old(self)@.open);
        frame
    }

    /// Files the handle that the document manager returned under its document,
    /// in place of an earlier handle on the same document. The handle has to be
    /// one of this session's user: it is the answer to the session's own request.
    pub fn opened(&mut self, handle: DocHandle)
        requires
            old(self)@.wf(),
            old(self)@.owns(handle@),
        ensures
            final(self)@.wf(),
            final(self)@ == old(self)@.with_handle(handle@),
    {
        let doc = handle.doc();
        self.open.insert(doc.0, handle);
        assert(self@.open =~= old(self)@.open.insert(handle@.doc, handle@));
    }

    /// Turns presence batches that a document's worker delivered into one
    /// `Presence` frame: `first` and then each batch of `more`, in order. The
    /// frame answers nothing.
    pub fn presence(&mut self, first: Vec<PresenceFrame>, more: Vec<Vec<PresenceFrame>>) -> (frame:
        Frame)
        requires
            old(self)@.wf(),
            old(self)@.next_frame_id < i32::MAX,
        ensures
            final(self)@.wf(),
            final(self)@ == old(self)@.advanced(),
            frame@ == (FrameView {
                id: old(self)@.next_frame_id,
                reply_to: None,
                frame: FrameTypeView::Presence {
                    updates: presence_views(first@) + coalesced(more@),
                },
            }),
    {
        let mut updates = first;
        let ghost batches = more@;
        for batch in iter: more
            invariant
                iter.seq() == batches,
                presence_views(updates@) == presence_views(first@) + coalesced(
                    batches.take(iter.index() as int),
                ),
        {
            let ghost seen = iter.index() as int;
            let ghost before = presence_views(updates@);
            assert(batches.take(seen + 1).drop_last() =~= batches.take(seen));
            assert(batches.take(seen + 1).last() == batch);
            let mut batch = batch;
            updates.append(&mut batch);
            assert(presence_views(updates@) =~= before + presence_views(batches[seen]@));
        }
        assert(batches.take(batches.len() as int) =~= batches);
        let frame = Frame::new(self.next_frame_id, FrameType::Presence { updates });
        self.next_frame_id = self.next_frame_id + 1;
        assert(self@.open =~= old(self)@.open);
        frame
    }

    /// Handles one inbound frame. The result is what the caller has to do, or
    /// the message of the error that the frame ran into; an error uses up no
    /// frame id and changes nothing.
    pub fn process_frame(
        &mut self,
        frame: Frame,
        authorizer: &mut Authorizer,
        now: Moment,
    ) -> (result: Result<Reaction, String>)
        requires
            old(self)@.wf(),
            old(self)@.next_frame_id < i32::MAX,
            old(authorizer).wf(),
        ensures
            final(self)@.wf(),
            final(authorizer).wf(),
            match result {
                Ok(reaction) => {
                    &&& old(self)@.process(frame@, now, reaction@.minted()) == Ok::<
                        ReactionView,
                        Seq<char>,
                    >(reaction@)
                    &&& final(self)@ == old(self)@.after(reaction@)
                    &&& final(authorizer)@ == old(self)@.authority_after(
                        old(authorizer)@,
                        frame@,
                        now,
                        reaction@.minted(),
                    )
                    &&& frame.frame is MintToken ==> is_generated_token(
                        reaction@.minted(),
                        "shrubtoken1:"@,
                    )
                },
                Err(message) => {
                    &&& old(self)@.process(frame@, now, Seq::empty()) == Err::<
                        ReactionView,
                        Seq<char>,
                    >(message@)
                    &&& final(self)@ == old(self)@
                    &&& final(authorizer)@ == old(authorizer)@
                },
            },
    {
        let reply_to = frame.id;
        match frame.frame {
            FrameType::Error { error: _ } => Err("unexpected error frame".to_owned()),
            FrameType::MintToken { user, info, lifetime_seconds } => {
                if !same_text(self.auth.user.as_str(), "root") {
                    return Err("forbidden".to_owned());
                }
                if same_text(user.as_str(), "root") {
                    return Err("cannot use MintToken on root".to_owned());
                }
                let entry = Entry { user, expiry: now.after_seconds(lifetime_seconds), info };
                let token = authorizer.mint_token(entry);
                let reply = Frame::new_reply(
                    self.next_frame_id,
                    reply_to,
                    FrameType::MintTokenResponse { token },
                );
                self.next_frame_id = self.next_frame_id + 1;
                assert(self@.open =~= old(self)@.open);
                Ok(Reaction::Reply(reply))
            },
            FrameType::RevokeTokensForUser { user } => {
                if !same_text(self.auth.user.as_str(), "root") {
                    return Err("forbidden".to_owned());
                }
                if same_text(user.as_str(), "root") {
                    return Err("cannot use RevokeTokensForUser on root".to_owned());
                }
                authorizer.revoke_tokens_for_user(user);
                Ok(Reaction::Reply(self.send_ok(reply_to)))
            },
            FrameType::Open { doc } => {
                let request = OpenRequest {
                    user: self.auth.user.clone(),
                    user_info: clone_optional_value(&self.auth.info),
                };
                let reply = self.send_ok(reply_to);
                Ok(Reaction::Open { doc, request, reply })
            },
            FrameType::UpdatePresence { doc, presence } => {
                match self.open.get(&doc.0) {
                    Some(handle) => {
                        let stamped = handle.update_presence(presence, now);
                        Ok(Reaction::Forward { doc, last_update: stamped.0, frame: stamped.1 })
                    },
                    None => Err("doc not open".to_owned()),
                }
            },
            _ => Ok(Reaction::Ignore),
        }
    }

    /// Handles one inbound frame and reports an error to the peer: where the
    /// frame runs into an error, the reaction is the `Error` frame that answers
    /// it, and the session goes on.
    pub fn receive(&mut self, frame: Frame, authorizer: &mut Authorizer, now: Moment) -> (reaction:
        Reaction)
        requires
            old(self)@.wf(),
            old(self)@.next_frame_id < i32::MAX,
            old(authorizer).wf(),
        ensures
            final(self)@.wf(),
            final(authorizer).wf(),
            reaction@ == old(self)@.react(frame@, now, reaction@.minted()),
            final(self)@ == old(self)@.after(reaction@),
            final(authorizer)@ == old(self)@.authority_after(
                old(authorizer)@,
                frame@,
                now,
                reaction@.minted(),
            ),
            frame.frame is MintToken && frame.frame->MintToken_user@ != "root"@ && old(
                self,
            )@.is_root() ==> is_generated_token(reaction@.minted(), "shrubtoken1:"@),
    {
        let reply_to = frame.id;
        match self.process_frame(frame, authorizer, now) {
            Ok(reaction) => reaction,
            Err(message) => Reaction::Reply(self.send_error(reply_to, message)),
        }
    }

    /// Handles one event.
    pub fn step(&mut self, event: Event, authorizer: &mut Authorizer) -> (reaction: Reaction)
        requires
            old(self)@.wf(),
            old(self)@.next_frame_id < i32::MAX,
            old(authorizer).wf(),
            acceptable(old(self)@.auth, event),
        ensures
            final(self)@.wf(),
            final(authorizer).wf(),
            final(self)@.auth == old(self)@.auth,
            reaction@ == old(self)@.on_event(event, reaction@.minted()),
            final(self)@ == old(self)@.step(event, reaction@.minted()),
            final(authorizer)@ == old(self)@.authority_step(
                old(authorizer)@,
                event,
                reaction@.minted(),
            ),
            old(self)@.next_frame_id <= final(self)@.next_frame_id <= old(self)@.next_frame_id + 1,
    {
        match event {
            Event::Frame(frame, now) => self.receive(frame, authorizer, now),
            Event::Opened(handle) => {
                self.opened(handle);
                Reaction::Ignore
            },
            Event::Presence(first, more) => Reaction::Reply(self.presence(first, more)),
        }
    }

    /// Runs the session over a recorded sequence of events and returns the
    /// reaction to each.
    ///
    /// The frames among the reactions are numbered upwards from the session's
    /// next frame id without a gap, and a frame that answers something answers
    /// the inbound frame of its own event.
    pub fn run(&mut self, events: Vec<Event>, authorizer: &mut Authorizer) -> (reactions: Vec<
        Reaction,
    >)
        requires
            old(self)@.wf(),
            old(authorizer).wf(),
            old(self)@.next_frame_id + events.len() <= i32::MAX,
            forall|i: int| 0 <= i < events.len() ==> acceptable(old(self)@.auth, #[trigger] events[i]),
        ensures
            final(self)@.wf(),
            final(authorizer).wf(),
            final(self)@.auth == old(self)@.auth,
            reactions.len() == events.len(),
            forall|i: int|
                0 <= i < reactions.len() ==> (#[trigger] reactions[i])@ == old(self)@.trace(
                    old(authorizer)@,
                    events@.take(i),
                    reaction_views(reactions@).take(i),
                ).0.on_event(events[i], reactions[i]@.minted()),
            (final(self)@, final(authorizer)@) == old(self)@.trace(
                old(authorizer)@,
                events@,
                reaction_views(reactions@),
            ),
            final(self)@.next_frame_id == old(self)@.next_frame_id + sent_frames(
                reaction_views(reactions@),
            ).len(),
            forall|k: int|
                0 <= k < sent_frames(reaction_views(reactions@)).len() ==> (#[trigger] sent_frames(
                    reaction_views(reactions@),
                )[k]).id == old(self)@.next_frame_id + k,
            forall|i: int|
                0 <= i < reactions.len() ==> answers_inbound(
                    (#[trigger] reactions[i])@,
                    events[i],
                ),
    {
        let mut reactions: Vec<Reaction> = Vec::new();
        let ghost script = events@;
        let ghost start = self@;
        let ghost authority = authorizer@;
        for event in iter: events
            invariant
                iter.seq() == script,
                start == old(self)@,
                authority == old(authorizer)@,
                start.next_frame_id + script.len() <= i32::MAX,
                forall|i: int| 0 <= i < script.len() ==> acceptable(start.auth, #[trigger] script[i]),
                self@.auth == start.auth,
                self@.wf(),
                authorizer.wf(),
                reactions.len() == iter.index(),
                forall|i: int|
                    0 <= i < reactions.len() ==> (#[trigger] reactions[i])@ == start.trace(
                        authority,
                        script.take(i),
                        reaction_views(reactions@).take(i),
                    ).0.on_event(script[i], reactions[i]@.minted()),
                (self@, authorizer@) == start.trace(
                    authority,
                    script.take(iter.index() as int),
                    reaction_views(reactions@),
                ),
                self@.next_frame_id == start.next_frame_id + sent_frames(
                    reaction_views(reactions@),
                ).len(),
                sent_frames(reaction_views(reactions@)).len() <= iter.index(),
                forall|k: int|
                    0 <= k < sent_frames(reaction_views(reactions@)).len() ==> (
                    #[trigger] sent_frames(reaction_views(reactions@))[k]).id
                        == start.next_frame_id + k,
                forall|i: int|
                    0 <= i < reactions.len() ==> answers_inbound(
                        (#[trigger] reactions[i])@,
                        script[i],
                    ),
        {
            let ghost seen = reactions.len() as int;
            let ghost views_before = reaction_views(reactions@);
            let ghost state_before = self@;
            let reaction = self.step(event, authorizer);
            reactions.push(reaction);
            proof {
                let views = reaction_views(reactions@);
                assert(views =~= views_before.push(reaction@));
                assert(views.drop_last() =~= views_before);
                assert(views.last() == reaction@);
                assert(script.take(seen + 1).drop_last() =~= script.take(seen));
                assert(script.take(seen + 1).last() == event);
                assert forall|i: int| 0 <= i < reactions.len() implies (#[trigger] reactions[i])@
                    == start.trace(authority, script.take(i), views.take(i)).0.on_event(
                    script[i],
                    reactions[i]@.minted(),
                ) by {
                    if i < seen {
                        assert(views.take(i) =~= views_before.take(i));
                    } else {
                        assert(views.take(i) =~= views_before);
                    }
                }
            }
        }
        proof {
            assert(script.take(script.len() as int) =~= script);
        }
        reactions
    }
}

/// The frames of a reply followed by further reactions are the reply's frame
/// followed by the frames of those reactions.
pub proof fn lemma_sent_frames_after_reply(first: FrameView, rest: Seq<ReactionView>)
    ensures
        sent_frames(seq![ReactionView::Reply(first)] + rest) == seq![first] + sent_frames(rest),
    decreases rest.len(),
{
    let all = seq![ReactionView::Reply(first)] + rest;
    if rest.len() == 0 {
        reveal_with_fuel(sent_frames, 2);
        assert(all.drop_last() =~= Seq::<ReactionView>::empty());
        assert(all.last() == ReactionView::Reply(first));
        assert(sent_frames(all) =~= seq![first] + sent_frames(rest));
    } else {
        lemma_sent_frames_after_reply(first, rest.drop_last());
        assert(all.drop_last() =~= seq![ReactionView::Reply(first)] + rest.drop_last());
        assert(all.last() == rest.last());
        assert(sent_frames(all) =~= seq![first] + sent_frames(rest));
    }
}

/// What all connections of a server share: the token authority.
pub struct SocketProcessor {
    authorizer: Authorizer,
}

impl SocketProcessor {
    /// The token authority as mathematics.
    pub closed spec fn authority(&self) -> AuthorizerView {
        self.authorizer@
    }

    /// The token authority is sound.
    pub closed spec fn wf(&self) -> bool {
        self.authorizer.wf()
    }

    /// A processor around the given token authority.
    pub fn new(authorizer: Authorizer) -> (processor: Self)
        requires
            authorizer.wf(),
        ensures
            processor.wf(),
            processor.authority() == authorizer@,
    {
        SocketProcessor { authorizer }
    }

    /// Gives the token authority back.
    pub fn into_authorizer(self) -> (authorizer: Authorizer)
        requires
            self.wf(),
        ensures
            authorizer.wf(),
            authorizer@ == self.authority(),
    {
        self.authorizer
    }

    /// Serves one connection over a recorded sequence of events: `first` is the
    /// first frame of the connection, `events` is what happens after it.
    ///
    /// The first reaction is the reply to `first`. Where `first` does not
    /// authenticate, that is all; else the reaction to each event follows. The
    /// frames among the reactions are numbered 1, 2, ... in order, and a frame
    /// that answers something answers the inbound frame it reacts to.
    pub fn accept(&mut self, first: Frame, now: Moment, events: Vec<Event>) -> (reactions: Vec<
        Reaction,
    >)
        requires
            old(self).wf(),
            events.len() + 2 <= i32::MAX,
            forall|i: int|
                0 <= i < events.len() ==> match authentication(old(self).authority(), first@, now) {
                    Ok(entry) => acceptable(entry, #[trigger] events[i]),
                    Err(_) => true,
                },
        ensures
            final(self).wf(),
            reactions.len() >= 1,
            match authentication(old(self).authority(), first@, now) {
                Ok(entry) => {
                    &&& reactions[0]@ == ReactionView::Reply(
                        first_reply(first@, FrameTypeView::Okay),
                    )
                    &&& reactions.len() == 1 + events.len()
                    &&& forall|i: int|
                        0 <= i < events.len() ==> (#[trigger] reactions[i + 1])@ == initial_state(
                            entry,
                        ).trace(
                            old(self).authority(),
                            events@.take(i),
                            reaction_views(reactions@).skip(1).take(i),
                        ).0.on_event(events[i], reactions[i + 1]@.minted())
                    &&& final(self).authority() == initial_state(entry).trace(
                        old(self).authority(),
                        events@,
                        reaction_views(reactions@).skip(1),
                    ).1
                    &&& forall|i: int|
                        0 <= i < events.len() ==> answers_inbound(
                            (#[trigger] reactions[i + 1])@,
                            events[i],
                        )
                },
                Err(error) => {
                    &&& reactions[0]@ == ReactionView::Reply(
                        first_reply(first@, FrameTypeView::Error { error }),
                    )
                    &&& reactions.len() == 1
                    &&& final(self).authority() == old(self).authority()
                },
            },
            forall|k: int|
                0 <= k < sent_frames(reaction_views(reactions@)).len() ==> (#[trigger] sent_frames(
                    reaction_views(reactions@),
                )[k]).id == 1 + k,
    {
        let mut reactions: Vec<Reaction> = Vec::new();
        match State::accept(first, &self.authorizer, now) {
            Accepted::Rejected { reply } => {
                reactions.push(Reaction::Reply(reply));
                proof {
                    let views = reaction_views(reactions@);
                    assert(views =~= seq![ReactionView::Reply(reply@)] + Seq::empty());
                    lemma_sent_frames_after_reply(reply@, Seq::empty());
                    assert(sent_frames(views) =~= seq![reply@]);
                }
                reactions
            },
            Accepted::Active { state, reply } => {
                let mut state = state;
                let ghost first_view = reply@;
                reactions.push(Reaction::Reply(reply));
                let mut rest = state.run(events, &mut self.authorizer);
                let ghost rest_views = reaction_views(rest@);
                reactions.append(&mut rest);
                proof {
                    let views = reaction_views(reactions@);
                    assert(views =~= seq![ReactionView::Reply(first_view)] + rest_views);
                    assert(views.skip(1) =~= rest_views);
                    lemma_sent_frames_after_reply(first_view, rest_views);
                    assert forall|i: int| 0 <= i < events.len() implies views.skip(1).take(i)
                        == rest_views.take(i) by {}
                }
                reactions
            },
        }
    }
}

} // verus!
