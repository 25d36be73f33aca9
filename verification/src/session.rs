//! Sessions as the shpool daemon lists them.

use vstd::prelude::*;

use crate::order::Ranked;
use crate::text::same;

verus! {

/// The reply to a list request.
#[derive(Debug)]
pub struct ListReply {
    pub sessions: Vec<Session>,
}

/// One client attached to a session.
#[derive(Debug, Clone)]
pub struct Attachment {
    /// The session-name template that the client dialed in with.
    pub session_name_template: String,
    /// The process id of the attach process.
    pub pid: u64,
}

#[derive(Debug)]
pub struct Session {
    pub name: String,
    /// True iff shpool reports this session as currently attached to
    /// another terminal. No other status drives any behavior.
    pub attached: bool,
    pub started_at_unix_ms: u64,
    pub last_connected_at_unix_ms: u64,
    /// `None` if the session has never been detached from since it
    /// was created (still on its first attach).
    pub last_disconnected_at_unix_ms: Option<u64>,
    /// The attached clients. Empty for a detached session.
    pub attachments: Vec<Attachment>,
}

/// What an `Attachment` holds.
#[verifier::ext_equal]
pub struct AttachmentView {
    pub template: Seq<char>,
    pub pid: u64,
}

/// What a `Session` holds.
#[verifier::ext_equal]
pub struct SessionView {
    pub name: Seq<char>,
    pub attached: bool,
    pub started: u64,
    pub connected: u64,
    pub disconnected: Option<u64>,
    pub attachments: Seq<AttachmentView>,
}

impl DeepView for Attachment {
    type V = AttachmentView;

    open spec fn deep_view(&self) -> AttachmentView {
        AttachmentView { template: self.session_name_template@, pid: self.pid }
    }
}

impl DeepView for Session {
    type V = SessionView;

    open spec fn deep_view(&self) -> SessionView {
        SessionView {
            name: self.name@,
            attached: self.attached,
            started: self.started_at_unix_ms,
            connected: self.last_connected_at_unix_ms,
            disconnected: self.last_disconnected_at_unix_ms,
            attachments: self.attachments.deep_view(),
        }
    }
}

pub open spec fn later(a: u64, b: u64) -> u64 {
    if a < b {
        b
    } else {
        a
    }
}

impl SessionView {
    /// The time of the most recent state transition: the latest of
    /// creation, last connect and last disconnect.
    pub open spec fn last_active(self) -> u64 {
        let disconnected = match self.disconnected {
            Some(t) => t,
            None => 0,
        };
        later(later(self.connected, disconnected), self.started)
    }
}

/// `t` is the latest of the times that a session has: its creation, the last
/// time someone connected, and the last time someone disconnected, if ever.
pub open spec fn is_latest(s: SessionView, t: u64) -> bool {
    &&& s.started <= t
    &&& s.connected <= t
    &&& s.disconnected matches Some(d) ==> d <= t
    &&& t == s.started || t == s.connected || s.disconnected == Some(t)
}

/// A session was last active at the latest of its times.
pub proof fn activity_is_the_latest_time(s: SessionView)
    ensures
        is_latest(s, s.last_active()),
        forall|t: u64| is_latest(s, t) ==> t == s.last_active(),
{
}

/// The names of `sessions`, in list order.
pub open spec fn names(sessions: Seq<SessionView>) -> Seq<Seq<char>> {
    Seq::new(sessions.len(), |i: int| sessions[i].name)
}

impl Session {
    /// Unix ms of the most recent state transition — the newer of
    /// last-connected and last-disconnected, falling back to
    /// creation time. Used for "last-active" sorting.
    pub fn last_active_unix_ms(&self) -> (t: u64)
        ensures
            t == self.deep_view().last_active(),
    {
        let mut t: u64 = self.last_connected_at_unix_ms;
        if let Some(d) = self.last_disconnected_at_unix_ms {
            if t < d {
                t = d;
            }
        }
        if t < self.started_at_unix_ms {
            t = self.started_at_unix_ms;
        }
        t
    }
}

impl Ranked for Session {
    /// The most recently active session comes first.
    open spec fn no_later(a: SessionView, b: SessionView) -> bool {
        a.last_active() >= b.last_active()
    }

    fn comes_no_later(&self, other: &Self) -> (r: bool) {
        self.last_active_unix_ms() >= other.last_active_unix_ms()
    }
}

/// The wire's status of a session that is attached.
pub open spec fn is_attached_status(status: Seq<char>) -> bool {
    status == "Attached"@
}

/// `Attached`, to the letter, is the one status that counts as attached.
pub proof fn one_status_is_attached(status: Seq<char>)
    ensures
        is_attached_status(status) <==> status == seq!['A', 't', 't', 'a', 'c', 'h', 'e', 'd'],
{
    reveal_strlit("Attached");
    assert("Attached"@ =~= seq!['A', 't', 't', 'a', 'c', 'h', 'e', 'd']);
}

/// Reads the wire's session status: only `Attached` counts as attached,
/// every other status (known today or not) does not.
pub fn attached_from_status(status: &str) -> (attached: bool)
    ensures
        attached == is_attached_status(status@),
{
    same(status, "Attached")
}

/// The session's place in `sessions`, by name.
pub fn position_of(sessions: &Vec<Session>, name: &str) -> (at: Option<usize>)
    ensures
        match at {
            Some(i) => crate::text::position(names(sessions.deep_view()), name@) == Some(i as int)
                && i < sessions@.len() && sessions@[i as int].name@ == name@,
            None => crate::text::position(names(sessions.deep_view()), name@) is None
                && !names(sessions.deep_view()).contains(name@),
        },
{
    for i in 0..sessions.len()
        invariant
            forall|j: int| 0 <= j < i ==> names(sessions.deep_view())[j] != name@,
    {
        if same(sessions[i].name.as_str(), name) {
            proof {
                crate::text::position_is(names(sessions.deep_view()), name@, i as int);
            }
            return Some(i);
        }
        assert(names(sessions.deep_view())[i as int] == sessions@[i as int].name@);
    }
    proof {
        crate::text::position_exists(names(sessions.deep_view()), name@);
    }
    None
}

/// The view of a session holds what its fields hold, and so does that of a
/// client.
pub proof fn session_views_are_true(s: Session, a: Attachment)
    ensures
        s.deep_view().name == s.name@,
        s.deep_view().attached == s.attached,
        s.deep_view().started == s.started_at_unix_ms,
        s.deep_view().connected == s.last_connected_at_unix_ms,
        s.deep_view().disconnected == s.last_disconnected_at_unix_ms,
        s.deep_view().attachments.len() == s.attachments@.len(),
        forall|i: int|
            0 <= i < s.attachments@.len() ==> #[trigger] s.deep_view().attachments[i]
                == s.attachments@[i].deep_view(),
        a.deep_view().template == a.session_name_template@,
        a.deep_view().pid == a.pid,
{
}

}
