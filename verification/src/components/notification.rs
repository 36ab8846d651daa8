//! Short messages shown to the user for a while: what each one holds and
//! the list of those on screen.

use vstd::prelude::*;
use crate::ids::is_hyphenated_uuid;

verus! {

/// The kind of a notification.
#[derive(Debug, Clone, Copy, PartialEq, Eq, Structural)]
pub enum NotificationType {
    Success,
    Error,
    Warning,
    Info,
}

/// A message shown to the user.
#[derive(Debug, Clone)]
pub struct Notification {
    pub id: String,
    pub message: String,
    pub notification_type: NotificationType,
    /// How long it stays on screen, in seconds; `None` until it is closed.
    pub duration: Option<u64>,
}

/// How long a notification of each kind stays on screen, in seconds.
pub open spec fn default_duration(t: NotificationType) -> u64 {
    match t {
        NotificationType::Success => 3,
        NotificationType::Error => 5,
        NotificationType::Warning => 4,
        NotificationType::Info => 3,
    }
}

/// A new notification of kind `t` with `message`: a fresh id and the
/// kind's duration.
pub open spec fn fresh_notification(n: Notification, t: NotificationType, message: Seq<char>) -> bool {
    &&& is_hyphenated_uuid(n.id@)
    &&& n.message@ == message
    &&& n.notification_type == t
    &&& n.duration == Some(default_duration(t))
}

impl Notification {
    /// A notification of kind `t` with a fresh random id.
    pub fn of_type(t: NotificationType, message: &str) -> (r: Notification)
        ensures
            fresh_notification(r, t, message@),
    {
        let duration: u64 = match t {
            NotificationType::Success => 3,
            NotificationType::Error => 5,
            NotificationType::Warning => 4,
            NotificationType::Info => 3,
        };
        Notification {
            id: crate::ids::new_uuid_string(),
            message: message.to_owned(),
            notification_type: t,
            duration: Some(duration),
        }
    }

    /// A success notification, shown for 3 seconds.
    pub fn success(message: &str) -> (r: Notification)
        ensures
            fresh_notification(r, NotificationType::Success, message@),
    {
        Notification::of_type(NotificationType::Success, message)
    }

    /// An error notification, shown for 5 seconds.
    pub fn error(message: &str) -> (r: Notification)
        ensures
            fresh_notification(r, NotificationType::Error, message@),
    {
        Notification::of_type(NotificationType::Error, message)
    }

    /// A warning notification, shown for 4 seconds.
    pub fn warning(message: &str) -> (r: Notification)
        ensures
            fresh_notification(r, NotificationType::Warning, message@),
    {
        Notification::of_type(NotificationType::Warning, message)
    }

    /// An information notification, shown for 3 seconds.
    pub fn info(message: &str) -> (r: Notification)
        ensures
            fresh_notification(r, NotificationType::Info, message@),
    {
        Notification::of_type(NotificationType::Info, message)
    }

    /// A copy with the same contents.
    pub fn duplicate(&self) -> (r: Notification)
        ensures
            r == *self,
    {
        Notification {
            id: self.id.clone(),
            message: self.message.clone(),
            notification_type: self.notification_type,
            duration: self.duration,
        }
    }
}

/// The notifications of `s` whose id is not `id`, in order.
pub open spec fn without_id(s: Seq<Notification>, id: Seq<char>) -> Seq<Notification>
    decreases s.len(),
{
    if s.len() == 0 {
        seq![]
    } else if s.last().id@ == id {
        without_id(s.drop_last(), id)
    } else {
        without_id(s.drop_last(), id).push(s.last())
    }
}

/// The notifications on screen, oldest first.
#[derive(Debug, Clone)]
pub struct NotificationManager {
    notifications: Vec<Notification>,
}

impl NotificationManager {
    /// The notifications, oldest first.
    pub closed spec fn items(&self) -> Seq<Notification> {
        self.notifications@
    }

    /// None on screen.
    pub fn new() -> (r: NotificationManager)
        ensures
            r.items().len() == 0,
    {
        NotificationManager { notifications: Vec::new() }
    }

    /// Puts `notification` on screen, after the others. Returns its id and
    /// how many seconds later it is to be removed (`None`: never by itself).
    pub fn add(&mut self, notification: Notification) -> (r: (String, Option<u64>))
        ensures
            final(self).items() == old(self).items().push(notification),
            r.0@ == notification.id@,
            r.1 == notification.duration,
    {
        let id = notification.id.clone();
        let duration = notification.duration;
        self.notifications.push(notification);
        (id, duration)
    }

    /// Takes every notification with id `id` off the screen; the others
    /// keep their order.
    pub fn remove(&mut self, id: &str)
        ensures
            final(self).items() == without_id(old(self).items(), id@),
    {
        let mut kept: Vec<Notification> = Vec::new();
        let mut i: usize = 0;
        let ghost s = self.notifications@;
        while i < self.notifications.len()
            invariant
                s == self.notifications@,
                i <= s.len(),
                kept@ == without_id(s.take(i as int), id@),
            decreases self.notifications.len() - i,
        {
            assert(s.take(i + 1).drop_last() =~= s.take(i as int));
            let n = &self.notifications[i];
            assert(s.take(i + 1).last() == s[i as int]);
            if !crate::text::eq_chars(&crate::text::chars_of(n.id.as_str()), &crate::text::chars_of(id)) {
                kept.push(n.duplicate());
            }
            i += 1;
        }
        assert(s.take(s.len() as int) =~= s);
        self.notifications = kept;
    }

    /// Takes every notification off the screen.
    pub fn clear(&mut self)
        ensures
            final(self).items().len() == 0,
    {
        self.notifications = Vec::new();
    }

    /// Copies of the notifications on screen, oldest first.
    pub fn get_notifications(&self) -> (r: Vec<Notification>)
        ensures
            r@ == self.items(),
    {
        let mut r: Vec<Notification> = Vec::new();
        let mut i: usize = 0;
        while i < self.notifications.len()
            invariant
                i <= self.notifications@.len(),
                r@ == self.notifications@.take(i as int),
            decreases self.notifications.len() - i,
        {
            r.push(self.notifications[i].duplicate());
            i += 1;
            assert(r@ =~= self.notifications@.take(i as int));
        }
        assert(self.notifications@.take(self.notifications@.len() as int) =~= self.notifications@);
        r
    }

    /// Adds a success notification; returns what `add` returns.
    pub fn success(&mut self, message: &str) -> (r: (String, Option<u64>))
        ensures
            final(self).items().len() == old(self).items().len() + 1,
            final(self).items().drop_last() == old(self).items(),
            fresh_notification(final(self).items().last(), NotificationType::Success, message@),
            r.0@ == final(self).items().last().id@,
            r.1 == Some(3u64),
    {
        self.add(Notification::success(message))
    }

    /// Adds an error notification; returns what `add` returns.
    pub fn error(&mut self, message: &str) -> (r: (String, Option<u64>))
        ensures
            final(self).items().len() == old(self).items().len() + 1,
            final(self).items().drop_last() == old(self).items(),
            fresh_notification(final(self).items().last(), NotificationType::Error, message@),
            r.0@ == final(self).items().last().id@,
            r.1 == Some(5u64),
    {
        self.add(Notification::error(message))
    }

    /// Adds a warning notification; returns what `add` returns.
    pub fn warning(&mut self, message: &str) -> (r: (String, Option<u64>))
        ensures
            final(self).items().len() == old(self).items().len() + 1,
            final(self).items().drop_last() == old(self).items(),
            fresh_notification(final(self).items().last(), NotificationType::Warning, message@),
            r.0@ == final(self).items().last().id@,
            r.1 == Some(4u64),
    {
        self.add(Notification::warning(message))
    }

    /// Adds an information notification; returns what `add` returns.
    pub fn info(&mut self, message: &str) -> (r: (String, Option<u64>))
        ensures
            final(self).items().len() == old(self).items().len() + 1,
            final(self).items().drop_last() == old(self).items(),
            fresh_notification(final(self).items().last(), NotificationType::Info, message@),
            r.0@ == final(self).items().last().id@,
            r.1 == Some(3u64),
    {
        self.add(Notification::info(message))
    }
}

/// Removing an id no notification has changes nothing.
proof fn lemma_without_absent(s: Seq<Notification>, id: Seq<char>)
    requires
        forall|i: int| 0 <= i < s.len() ==> s[i].id@ != id,
    ensures
        without_id(s, id) == s,
    decreases s.len(),
{
    if s.len() > 0 {
        lemma_without_absent(s.drop_last(), id);
        assert(s.drop_last().push(s.last()) =~= s);
    }
}

/// After a removal no notification with the removed id is left, and each
/// one left was there before.
pub proof fn law_removed_id_is_gone(s: Seq<Notification>, id: Seq<char>)
    ensures
        forall|i: int| 0 <= i < without_id(s, id).len() ==> (#[trigger] without_id(s, id)[i]).id@ != id,
        forall|i: int| 0 <= i < without_id(s, id).len() ==> s.contains(#[trigger] without_id(s, id)[i]),
    decreases s.len(),
{
    if s.len() > 0 {
        let d = s.drop_last();
        law_removed_id_is_gone(d, id);
        let w = without_id(s, id);
        assert forall|i: int| 0 <= i < w.len() implies s.contains(#[trigger] w[i]) by {
            if i < without_id(d, id).len() {
                let k = choose|k: int| 0 <= k < d.len() && d[k] == without_id(d, id)[i];
                assert(s[k] == d[k]);
            } else {
                assert(s[s.len() - 1] == s.last());
            }
        }
    }
}

/// Putting a notification on screen and then taking its id off leaves the
/// screen as it was, when no notification there had that id.
pub proof fn law_add_then_remove(s: Seq<Notification>, n: Notification)
    requires
        forall|i: int| 0 <= i < s.len() ==> s[i].id@ != n.id@,
    ensures
        without_id(s.push(n), n.id@) == s,
{
    assert(s.push(n).drop_last() =~= s);
    lemma_without_absent(s, n.id@);
}

} // verus!
