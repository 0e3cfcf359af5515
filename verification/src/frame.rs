//! Frames: the records exchanged on the wire.

use crate::doc_id::DocId;
use crate::json::{clone_optional_value, clone_value};
use vstd::prelude::*;

verus! {

/// One client's presence in one document.
#[derive(Debug, PartialEq)]
pub struct PresenceFrame {
    pub client: u32,
    pub doc: DocId,
    pub user: String,
    pub info: Option<serde_json::Value>,
    pub presence: Option<serde_json::Value>,
}

/// The mathematical value of a [`PresenceFrame`].
pub struct PresenceFrameView {
    pub client: u32,
    pub doc: DocId,
    pub user: Seq<char>,
    pub info: Option<serde_json::Value>,
    pub presence: Option<serde_json::Value>,
}

impl View for PresenceFrame {
    type V = PresenceFrameView;

    open spec fn view(&self) -> PresenceFrameView {
        PresenceFrameView {
            client: self.client,
            doc: self.doc,
            user: self.user@,
            info: self.info,
            presence: self.presence,
        }
    }
}

impl Clone for PresenceFrame {
    fn clone(&self) -> (copy: Self)
        ensures
            copy@ == self@,
    {
        PresenceFrame {
            client: self.client,
            doc: self.doc,
            user: self.user.clone(),
            info: clone_optional_value(&self.info),
            presence: clone_optional_value(&self.presence),
        }
    }
}

/// The views of a sequence of presence frames, in order.
pub open spec fn presence_views(frames: Seq<PresenceFrame>) -> Seq<PresenceFrameView> {
    frames.map_values(|f: PresenceFrame| f@)
}

/// Copies a list of presence frames.
pub fn clone_presence_frames(frames: &Vec<PresenceFrame>) -> (copy: Vec<PresenceFrame>)
    ensures
        presence_views(copy@) == presence_views(frames@),
{
    let mut copy: Vec<PresenceFrame> = Vec::new();
    let mut i: usize = 0;
    while i < frames.len()
        invariant
            i <= frames.len(),
            copy.len() == i,
            forall|j: int| 0 <= j < i ==> copy@[j]@ == frames@[j]@,
        decreases frames.len() - i,
    {
        copy.push(frames[i].clone());
        i += 1;
    }
    assert(presence_views(copy@) =~= presence_views(frames@));
    copy
}

/// The payload of a frame, selected on the wire by its `type` tag.
#[derive(Debug, PartialEq)]
#[non_exhaustive]
pub enum FrameType {
    Authenticate { token: String },
    /// Plain success; on the wire its tag is `Ok`.
    Okay,
    Error { error: String },
    MintToken { user: String, info: Option<serde_json::Value>, lifetime_seconds: u64 },
    MintTokenResponse { token: String },
    RevokeTokensForUser { user: String },
    Open { doc: DocId },
    UpdatePresence { doc: DocId, presence: serde_json::Value },
    Presence { updates: Vec<PresenceFrame> },
    /// Stands for every tag this version does not know.
    UnknownFrame,
}

/// The mathematical value of a [`FrameType`].
pub enum FrameTypeView {
    Authenticate { token: Seq<char> },
    Okay,
    Error { error: Seq<char> },
    MintToken { user: Seq<char>, info: Option<serde_json::Value>, lifetime_seconds: u64 },
    MintTokenResponse { token: Seq<char> },
    RevokeTokensForUser { user: Seq<char> },
    Open { doc: DocId },
    UpdatePresence { doc: DocId, presence: serde_json::Value },
    Presence { updates: Seq<PresenceFrameView> },
    UnknownFrame,
}

impl View for FrameType {
    type V = FrameTypeView;

    open spec fn view(&self) -> FrameTypeView {
        match *self {
            FrameType::Authenticate { token } => FrameTypeView::Authenticate { token: token@ },
            FrameType::Okay => FrameTypeView::Okay,
            FrameType::Error { error } => FrameTypeView::Error { error: error@ },
            FrameType::MintToken { user, info, lifetime_seconds } => FrameTypeView::MintToken {
                user: user@,
                info,
                lifetime_seconds,
            },
            FrameType::MintTokenResponse { token } => FrameTypeView::MintTokenResponse {
                token: token@,
            },
            FrameType::RevokeTokensForUser { user } => FrameTypeView::RevokeTokensForUser {
                user: user@,
            },
            FrameType::Open { doc } => FrameTypeView::Open { doc },
            FrameType::UpdatePresence { doc, presence } => FrameTypeView::UpdatePresence {
                doc,
                presence,
            },
            FrameType::Presence { updates } => FrameTypeView::Presence {
                updates: presence_views(updates@),
            },
            FrameType::UnknownFrame => FrameTypeView::UnknownFrame,
        }
    }
}

impl Clone for FrameType {
    fn clone(&self) -> (copy: Self)
        ensures
            copy@ == self@,
    {
        match self {
            FrameType::Authenticate { token } => FrameType::Authenticate { token: token.clone() },
            FrameType::Okay => FrameType::Okay,
            FrameType::Error { error } => FrameType::Error { error: error.clone() },
            FrameType::MintToken { user, info, lifetime_seconds } => FrameType::MintToken {
                user: user.clone(),
                info: clone_optional_value(info),
                lifetime_seconds: *lifetime_seconds,
            },
            FrameType::MintTokenResponse { token } => FrameType::MintTokenResponse {
                token: token.clone(),
            },
            FrameType::RevokeTokensForUser { user } => FrameType::RevokeTokensForUser {
                user: user.clone(),
            },
            FrameType::Open { doc } => FrameType::Open { doc: *doc },
            FrameType::UpdatePresence { doc, presence } => FrameType::UpdatePresence {
                doc: *doc,
                presence: clone_value(presence),
            },
            FrameType::Presence { updates } => FrameType::Presence {
                updates: clone_presence_frames(updates),
            },
            FrameType::UnknownFrame => FrameType::UnknownFrame,
        }
    }
}

/// One record on the wire: an id, an optional reply correlation and a payload.
///
/// Clients number their frames -1, -2, ...; the server numbers its own 1, 2, ....
#[derive(Debug, PartialEq)]
pub struct Frame {
    pub id: i32,
    pub reply_to: Option<i32>,
    pub frame: FrameType,
}

/// The mathematical value of a [`Frame`].
pub struct FrameView {
    pub id: i32,
    pub reply_to: Option<i32>,
    pub frame: FrameTypeView,
}

impl View for Frame {
    type V = FrameView;

    open spec fn view(&self) -> FrameView {
        FrameView { id: self.id, reply_to: self.reply_to, frame: self.frame@ }
    }
}

impl Frame {
    /// A frame that answers nothing.
    pub fn new(id: i32, frame: FrameType) -> (r: Frame)
        ensures
            r.id == id,
            r.reply_to.is_none(),
            r.frame == frame,
    {
        Frame { id, frame, reply_to: None }
    }

    /// Whether this frame answers the frame numbered `id`.
    pub fn is_reply_to(&self, id: i32) -> (answers: bool)
        ensures
            answers == (self.reply_to == Some(id)),
    {
        match self.reply_to {
            Some(reply_to) => reply_to == id,
            None => false,
        }
    }

    /// A frame that answers the frame numbered `reply_to`.
    pub fn new_reply(id: i32, reply_to: i32, inner: FrameType) -> (r: Frame)
        ensures
            r.id == id,
            r.reply_to == Some(reply_to),
            r.frame == inner,
    {
        Frame { id, frame: inner, reply_to: Some(reply_to) }
    }
}

} // verus!
