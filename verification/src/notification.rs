//! Notifications and the list that shows them.
//!
//! The list decides which notifications it holds and which one a timer
//! hides; waiting is the host's business. Where the list asks for a wait,
//! it says so in what it returns, and the host reports back when the time
//! has passed.

use vstd::prelude::*;

verus! {

/// How long a notification that hides itself stays, in seconds.
pub const AUTOHIDE_SECS: u64 = 5;

/// How long a dismissed notification takes to slide out, in milliseconds.
pub const DISMISS_MILLIS: u64 = 150;

/// How many notifications are shown at once: the newest ones.
pub const VISIBLE_MAX: usize = 10;

#[derive(Clone, Copy, Debug, PartialEq, Eq, Structural)]
pub enum NotificationType {
    Info,
    Success,
    Warning,
    Error,
}

/// The icons that stand for the types of notification.
#[derive(Clone, Copy, Debug, PartialEq, Eq, Structural)]
pub enum IconName {
    Info,
    CircleCheck,
    TriangleAlert,
    CircleX,
}

impl NotificationType {
    pub open spec fn spec_default_icon(self) -> IconName {
        match self {
            NotificationType::Info => IconName::Info,
            NotificationType::Success => IconName::CircleCheck,
            NotificationType::Warning => IconName::TriangleAlert,
            NotificationType::Error => IconName::CircleX,
        }
    }

    /// The icon of a notification of this type that has none of its own.
    #[verifier::when_used_as_spec(spec_default_icon)]
    pub fn default_icon(self) -> (r: IconName)
        ensures
            r == self.spec_default_icon(),
    {
        match self {
            NotificationType::Info => IconName::Info,
            NotificationType::Success => IconName::CircleCheck,
            NotificationType::Warning => IconName::TriangleAlert,
            NotificationType::Error => IconName::CircleX,
        }
    }
}

/// What makes a notification the same as another: a list holds at most one
/// notification of each id.
#[derive(Clone, Copy, Debug, PartialEq, Eq, Structural)]
pub enum NotificationId {
    /// Drawn at random for a notification that was given no id.
    Unique(u128),
    /// The kind of the notification.
    Id(u64),
    /// The kind of the notification and a key within the kind.
    IdAndElementId(u64, u64),
}

/// Whether `key` has the shape of a random identifier: version four, in the
/// standard variant.
pub open spec fn is_random_key(key: u128) -> bool {
    key & 0x0000_0000_0000_f000_c000_0000_0000_0000u128
        == 0x0000_0000_0000_4000_8000_0000_0000_0000u128
}

/// Draws a random identifier with `uuid::Uuid::new_v4` and returns it as a
/// number, as `Uuid::as_u128` gives it. Nothing is proved of it and nothing
/// can be said of its value but its shape: the version and variant bits that
/// `new_v4` sets on every identifier. The call fails only if the operating
/// system hands out no random bytes.
#[verifier::external_body]
fn random_key() -> (key: u128)
    ensures
        is_random_key(key),
{
    uuid::Uuid::new_v4().as_u128()
}

pub struct Notification {
    id: NotificationId,
    type_: NotificationType,
    title: Option<String>,
    message: String,
    icon: Option<String>,
    autohide: bool,
    on_click: Option<u64>,
    closing: bool,
}

/// What a [`Notification`] holds.
pub struct NotificationView {
    pub id: NotificationId,
    pub type_: NotificationType,
    pub title: Option<Seq<char>>,
    pub message: Seq<char>,
    /// The name of an icon of the notification's own.
    pub icon: Option<Seq<char>>,
    /// Whether the notification hides itself after a while.
    pub autohide: bool,
    /// The handler that the host calls on a click.
    pub on_click: Option<u64>,
    /// Whether the notification is sliding out.
    pub closing: bool,
}

pub open spec fn text_view(text: Option<String>) -> Option<Seq<char>> {
    match text {
        Some(text) => Some(text@),
        None => None,
    }
}

impl View for Notification {
    type V = NotificationView;

    closed spec fn view(&self) -> NotificationView {
        NotificationView {
            id: self.id,
            type_: self.type_,
            title: text_view(self.title),
            message: self.message@,
            icon: text_view(self.icon),
            autohide: self.autohide,
            on_click: self.on_click,
            closing: self.closing,
        }
    }
}

impl Notification {
    /// A notification with `message` and the id `Unique(key)`: of type
    /// `Info`, without title, icon or click handler, hiding itself.
    pub fn with_key(message: String, key: u128) -> (r: Self)
        ensures
            r@ == (NotificationView {
                id: NotificationId::Unique(key),
                type_: NotificationType::Info,
                title: None,
                message: message@,
                icon: None,
                autohide: true,
                on_click: None,
                closing: false,
            }),
    {
        Notification {
            id: NotificationId::Unique(key),
            type_: NotificationType::Info,
            title: None,
            message,
            icon: None,
            autohide: true,
            on_click: None,
            closing: false,
        }
    }

    /// A notification with `message` as [`Notification::with_key`] makes
    /// it, with a key drawn at random.
    pub fn new(message: String) -> (r: Self)
        ensures
            r@.id matches NotificationId::Unique(key) && is_random_key(key),
            r@ == (NotificationView {
                id: r@.id,
                type_: NotificationType::Info,
                title: None,
                message: message@,
                icon: None,
                autohide: true,
                on_click: None,
                closing: false,
            }),
    {
        Notification::with_key(message, random_key())
    }

    /// A notification as [`Notification::new`] makes it.
    pub fn info(message: String) -> (r: Self)
        ensures
            r@.id is Unique,
            r@ == (NotificationView {
                id: r@.id,
                type_: NotificationType::Info,
                title: None,
                message: message@,
                icon: None,
                autohide: true,
                on_click: None,
                closing: false,
            }),
    {
        Notification::new(message).with_type(NotificationType::Info)
    }

    /// A notification as [`Notification::new`] makes it, of type `Success`.
    pub fn success(message: String) -> (r: Self)
        ensures
            r@.id is Unique,
            r@ == (NotificationView {
                id: r@.id,
                type_: NotificationType::Success,
                title: None,
                message: message@,
                icon: None,
                autohide: true,
                on_click: None,
                closing: false,
            }),
    {
        Notification::new(message).with_type(NotificationType::Success)
    }

    /// A notification as [`Notification::new`] makes it, of type `Warning`.
    pub fn warning(message: String) -> (r: Self)
        ensures
            r@.id is Unique,
            r@ == (NotificationView {
                id: r@.id,
                type_: NotificationType::Warning,
                title: None,
                message: message@,
                icon: None,
                autohide: true,
                on_click: None,
                closing: false,
            }),
    {
        Notification::new(message).with_type(NotificationType::Warning)
    }

    /// A notification as [`Notification::new`] makes it, of type `Error`.
    pub fn error(message: String) -> (r: Self)
        ensures
            r@.id is Unique,
            r@ == (NotificationView {
                id: r@.id,
                type_: NotificationType::Error,
                title: None,
                message: message@,
                icon: None,
                autohide: true,
                on_click: None,
                closing: false,
            }),
    {
        Notification::new(message).with_type(NotificationType::Error)
    }

    /// Makes the notification the one of its kind: a list replaces an
    /// earlier notification of the same kind by it.
    pub fn id(self, kind: u64) -> (r: Self)
        ensures
            r@ == (NotificationView { id: NotificationId::Id(kind), ..self@ }),
    {
        let mut this = self;
        this.id = NotificationId::Id(kind);
        this
    }

    /// Makes the notification the one of its kind with `key`.
    pub fn id1(self, kind: u64, key: u64) -> (r: Self)
        ensures
            r@ == (NotificationView { id: NotificationId::IdAndElementId(kind, key), ..self@ }),
    {
        let mut this = self;
        this.id = NotificationId::IdAndElementId(kind, key);
        this
    }

    pub fn title(self, title: String) -> (r: Self)
        ensures
            r@ == (NotificationView { title: Some(title@), ..self@ }),
    {
        let mut this = self;
        this.title = Some(title);
        this
    }

    /// Gives the notification an icon of its own, in place of the icon of
    /// its type.
    pub fn icon(self, icon: String) -> (r: Self)
        ensures
            r@ == (NotificationView { icon: Some(icon@), ..self@ }),
    {
        let mut this = self;
        this.icon = Some(icon);
        this
    }

    pub fn with_type(self, type_: NotificationType) -> (r: Self)
        ensures
            r@ == (NotificationView { type_: type_, ..self@ }),
    {
        let mut this = self;
        this.type_ = type_;
        this
    }

    /// Says whether the notification hides itself after a while.
    pub fn autohide(self, autohide: bool) -> (r: Self)
        ensures
            r@ == (NotificationView { autohide: autohide, ..self@ }),
    {
        let mut this = self;
        this.autohide = autohide;
        this
    }

    /// Names the handler that the host calls when the notification is
    /// clicked.
    pub fn on_click(self, handler: u64) -> (r: Self)
        ensures
            r@ == (NotificationView { on_click: Some(handler), ..self@ }),
    {
        let mut this = self;
        this.on_click = Some(handler);
        this
    }

    /// The notification starts to slide out. When it has, after
    /// [`DISMISS_MILLIS`], it is for the host to tell the list.
    pub fn dismiss(&mut self)
        ensures
            final(self)@ == (NotificationView { closing: true, ..old(self)@ }),
    {
        self.closing = true;
    }

    /// Whether a click dismisses the notification: it does where a handler
    /// is named, which the host then calls.
    pub fn is_clickable(&self) -> (r: bool)
        ensures
            r == self@.on_click is Some,
    {
        self.on_click.is_some()
    }

    /// Whether the notification shows a button to close it: it does where it
    /// does not hide itself.
    pub fn has_close_button(&self) -> (r: bool)
        ensures
            r == !self@.autohide,
    {
        !self.autohide
    }

    pub fn get_id(&self) -> (r: NotificationId)
        ensures
            r == self@.id,
    {
        self.id
    }

    pub fn get_type(&self) -> (r: NotificationType)
        ensures
            r == self@.type_,
    {
        self.type_
    }

    pub fn get_title(&self) -> (r: Option<&String>)
        ensures
            r is Some == self@.title is Some,
            r matches Some(title) ==> self@.title == Some(title@),
    {
        self.title.as_ref()
    }

    pub fn get_message(&self) -> (r: &String)
        ensures
            r@ == self@.message,
    {
        &self.message
    }

    pub fn get_icon(&self) -> (r: Option<&String>)
        ensures
            r is Some == self@.icon is Some,
            r matches Some(icon) ==> self@.icon == Some(icon@),
    {
        self.icon.as_ref()
    }

    pub fn get_autohide(&self) -> (r: bool)
        ensures
            r == self@.autohide,
    {
        self.autohide
    }

    pub fn get_on_click(&self) -> (r: Option<u64>)
        ensures
            r == self@.on_click,
    {
        self.on_click
    }

    pub fn is_closing(&self) -> (r: bool)
        ensures
            r == self@.closing,
    {
        self.closing
    }
}

/// A list of notifications, oldest first.
pub struct NotificationList {
    notifications: Vec<Notification>,
    expanded: bool,
}

/// What a [`NotificationList`] holds.
pub struct NotificationListView {
    pub notifications: Seq<NotificationView>,
    /// Whether the pointer is over the list.
    pub expanded: bool,
}

impl NotificationListView {
    /// The ids of the notifications, oldest first.
    pub open spec fn ids(self) -> Seq<NotificationId> {
        Seq::new(self.notifications.len(), |k: int| self.notifications[k].id)
    }

    /// No two notifications have the same id.
    pub open spec fn wf(self) -> bool {
        self.ids().no_duplicates()
    }

    /// The notifications without the one with `id`.
    pub open spec fn without(self, id: NotificationId) -> Seq<NotificationView> {
        if self.ids().contains(id) {
            self.notifications.remove(self.ids().index_of(id))
        } else {
            self.notifications
        }
    }

    /// `notification` becomes the newest; an earlier one with the same id
    /// is gone.
    pub open spec fn push(self, notification: NotificationView) -> NotificationListView {
        NotificationListView {
            notifications: self.without(notification.id).push(notification),
            ..self
        }
    }

    /// The notification with `id` is gone.
    pub open spec fn remove(self, id: NotificationId) -> NotificationListView {
        NotificationListView { notifications: self.without(id), ..self }
    }

    /// Whether `k` is the oldest notification that hides itself.
    pub open spec fn is_first_autohide(self, k: int) -> bool {
        &&& 0 <= k < self.notifications.len()
        &&& self.notifications[k].autohide
        &&& forall|j: int| 0 <= j < k ==> !(#[trigger] self.notifications[j]).autohide
    }

    /// Whether any notification hides itself.
    pub open spec fn has_autohide(self) -> bool {
        exists|k: int| 0 <= k < self.notifications.len() && (#[trigger] self.notifications[k]).autohide
    }

    /// Notification `k` starts to slide out.
    pub open spec fn closing(self, k: int) -> NotificationListView {
        NotificationListView {
            notifications: self.notifications.update(
                k,
                NotificationView { closing: true, ..self.notifications[k] },
            ),
            ..self
        }
    }

    /// The ids of the notifications that are shown: the newest, at most
    /// [`VISIBLE_MAX`] of them, oldest first.
    pub open spec fn visible(self) -> Seq<NotificationId> {
        if self.notifications.len() > VISIBLE_MAX {
            self.ids().subrange(
                self.notifications.len() - VISIBLE_MAX,
                self.notifications.len() as int,
            )
        } else {
            self.ids()
        }
    }
}

proof fn lemma_without_wf(list: NotificationListView, id: NotificationId)
    requires
        list.wf(),
    ensures
        (NotificationListView { notifications: list.without(id), ..list }).wf(),
        !(NotificationListView { notifications: list.without(id), ..list }).ids().contains(id),
{
    let after = NotificationListView { notifications: list.without(id), ..list };
    if list.ids().contains(id) {
        let at = list.ids().index_of(id);
        assert forall|i: int| 0 <= i < after.ids().len() implies #[trigger] after.ids()[i]
            == list.ids()[if i < at {
            i
        } else {
            i + 1
        }] by {}
        assert forall|i: int, j: int|
            0 <= i < after.ids().len() && 0 <= j < after.ids().len() && i != j implies after.ids()[i]
            != after.ids()[j] by {
            let oi = if i < at {
                i
            } else {
                i + 1
            };
            let oj = if j < at {
                j
            } else {
                j + 1
            };
            assert(after.ids()[i] == list.ids()[oi]);
            assert(after.ids()[j] == list.ids()[oj]);
        }
        assert forall|i: int| 0 <= i < after.ids().len() implies after.ids()[i] != id by {
            let oi = if i < at {
                i
            } else {
                i + 1
            };
            assert(after.ids()[i] == list.ids()[oi]);
        }
    }
}

/// Pushing keeps the ids apart: the list holds the new notification, as its
/// newest, and no other with its id.
pub proof fn lemma_push_wf(list: NotificationListView, notification: NotificationView)
    requires
        list.wf(),
    ensures
        list.push(notification).wf(),
        list.push(notification).notifications.last() == notification,
        list.push(notification).notifications.len() <= list.notifications.len() + 1,
{
    lemma_without_wf(list, notification.id);
    let before = NotificationListView { notifications: list.without(notification.id), ..list };
    let after = list.push(notification);
    let n = before.notifications.len() as int;
    assert forall|i: int, j: int|
        0 <= i < after.ids().len() && 0 <= j < after.ids().len() && i != j implies after.ids()[i]
        != after.ids()[j] by {
        if i < n {
            assert(after.ids()[i] == before.ids()[i]);
        }
        if j < n {
            assert(after.ids()[j] == before.ids()[j]);
        }
    }
}

impl View for NotificationList {
    type V = NotificationListView;

    closed spec fn view(&self) -> NotificationListView {
        NotificationListView {
            notifications: Seq::new(self.notifications@.len(), |k: int| self.notifications@[k]@),
            expanded: self.expanded,
        }
    }
}

impl NotificationList {
    /// See [`NotificationListView::wf`].
    pub open spec fn wf(&self) -> bool {
        self@.wf()
    }

    /// An empty list.
    pub fn new() -> (r: Self)
        ensures
            r.wf(),
            r@ == (NotificationListView { notifications: Seq::empty(), expanded: false }),
    {
        let r = NotificationList { notifications: Vec::new(), expanded: false };
        assert(r@.notifications =~= Seq::empty());
        r
    }

    /// The index of the notification with `id`.
    fn position(&self, id: NotificationId) -> (r: Option<usize>)
        requires
            self.wf(),
        ensures
            r is Some <==> self@.ids().contains(id),
            r matches Some(k) ==> k < self@.notifications.len() && k == self@.ids().index_of(id),
    {
        let mut k: usize = 0;
        while k < self.notifications.len()
            invariant
                self.wf(),
                k <= self.notifications.len(),
                forall|j: int| 0 <= j < k ==> self@.ids()[j] != id,
            decreases self.notifications.len() - k,
        {
            if self.notifications[k].id == id {
                proof {
                    assert(self@.ids()[k as int] == id);
                    let j = self@.ids().index_of(id);
                    assert(self@.ids()[j] == id);
                }
                return Some(k);
            }
            k = k + 1;
        }
        None
    }

    fn remove_by_id(&mut self, id: NotificationId)
        requires
            old(self).wf(),
        ensures
            final(self).wf(),
            final(self)@ == old(self)@.remove(id),
            !final(self)@.ids().contains(id),
    {
        proof {
            lemma_without_wf(old(self)@, id);
        }
        if let Some(k) = self.position(id) {
            self.notifications.remove(k);
        }
        assert(self@.notifications =~= old(self)@.without(id));
    }

    /// Adds `notification` as the newest, in place of an earlier one with
    /// the same id, and says whether it hides itself: if so, the host
    /// reports back with [`NotificationList::on_autohide_timer`] after
    /// [`AUTOHIDE_SECS`].
    pub fn push(&mut self, notification: Notification) -> (autohide: bool)
        requires
            old(self).wf(),
        ensures
            final(self).wf(),
            final(self)@ == old(self)@.push(notification@),
            autohide == notification@.autohide,
    {
        let autohide = notification.autohide;
        self.remove_by_id(notification.id);
        self.notifications.push(notification);
        proof {
            lemma_push_wf(old(self)@, notification@);
            assert(self@.notifications =~= old(self)@.push(notification@).notifications);
        }
        autohide
    }

    /// The time of a notification that hides itself has passed. The oldest
    /// notification that hides itself starts to slide out, and its id is
    /// returned: the host reports back with
    /// [`NotificationList::on_dismissed`] after [`DISMISS_MILLIS`]. Where no
    /// notification hides itself, nothing changes.
    pub fn on_autohide_timer(&mut self) -> (dismissed: Option<NotificationId>)
        requires
            old(self).wf(),
        ensures
            final(self).wf(),
            match dismissed {
                Some(id) => exists|k: int|
                    old(self)@.is_first_autohide(k) && id == old(self)@.notifications[k].id
                        && final(self)@ == old(self)@.closing(k),
                None => !old(self)@.has_autohide() && final(self)@ == old(self)@,
            },
    {
        let mut k: usize = 0;
        while k < self.notifications.len()
            invariant
                old(self).wf(),
                k <= self.notifications.len(),
                self.notifications == old(self).notifications,
                self.expanded == old(self).expanded,
                forall|j: int| 0 <= j < k ==> !(#[trigger] self@.notifications[j]).autohide,
            decreases self.notifications.len() - k,
        {
            if self.notifications[k].autohide {
                let id = self.notifications[k].id;
                self.notifications[k].dismiss();
                proof {
                    assert(old(self)@.is_first_autohide(k as int));
                    assert(self@.notifications =~= old(self)@.closing(k as int).notifications);
                    assert(self@.ids() =~= old(self)@.ids());
                }
                return Some(id);
            }
            k = k + 1;
        }
        None
    }

    /// The notification with `id` was clicked away: it starts to slide out.
    /// Says whether there is such a notification; if so, the host reports
    /// back with [`NotificationList::on_dismissed`] after
    /// [`DISMISS_MILLIS`].
    pub fn dismiss(&mut self, id: NotificationId) -> (found: bool)
        requires
            old(self).wf(),
        ensures
            final(self).wf(),
            found == old(self)@.ids().contains(id),
            final(self)@ == (if found {
                old(self)@.closing(old(self)@.ids().index_of(id))
            } else {
                old(self)@
            }),
    {
        match self.position(id) {
            Some(k) => {
                self.notifications[k].dismiss();
                proof {
                    assert(self@.notifications =~= old(self)@.closing(k as int).notifications);
                    assert(self@.ids() =~= old(self)@.ids());
                }
                true
            },
            None => false,
        }
    }

    /// The notification with `id` has slid out: it leaves the list. Nothing
    /// changes where there is no such notification.
    pub fn on_dismissed(&mut self, id: NotificationId)
        requires
            old(self).wf(),
        ensures
            final(self).wf(),
            final(self)@ == old(self)@.remove(id),
            !final(self)@.ids().contains(id),
    {
        self.remove_by_id(id);
    }

    /// Removes every notification.
    pub fn clear(&mut self)
        ensures
            final(self).wf(),
            final(self)@ == (NotificationListView {
                notifications: Seq::empty(),
                ..old(self)@
            }),
    {
        self.notifications.clear();
        assert(self@.notifications =~= Seq::empty());
    }

    /// The pointer came over the list or left it.
    pub fn set_expanded(&mut self, expanded: bool)
        ensures
            final(self)@ == (NotificationListView { expanded: expanded, ..old(self)@ }),
    {
        self.expanded = expanded;
    }

    pub fn is_expanded(&self) -> (r: bool)
        ensures
            r == self@.expanded,
    {
        self.expanded
    }

    /// The number of notifications.
    pub fn len(&self) -> (r: usize)
        ensures
            r == self@.notifications.len(),
    {
        self.notifications.len()
    }

    /// Notification `k`, counted from the oldest.
    pub fn get(&self, k: usize) -> (r: Option<&Notification>)
        ensures
            r is Some <==> k < self@.notifications.len(),
            r matches Some(n) ==> n@ == self@.notifications[k as int],
    {
        if k < self.notifications.len() {
            Some(&self.notifications[k])
        } else {
            None
        }
    }

    /// The ids of the notifications, oldest first.
    pub fn notifications(&self) -> (r: Vec<NotificationId>)
        ensures
            r@ == self@.ids(),
    {
        let mut ids: Vec<NotificationId> = Vec::new();
        let mut k: usize = 0;
        while k < self.notifications.len()
            invariant
                k <= self.notifications.len(),
                ids@ == self@.ids().take(k as int),
            decreases self.notifications.len() - k,
        {
            ids.push(self.notifications[k].id);
            assert(ids@ =~= self@.ids().take(k + 1));
            k = k + 1;
        }
        assert(self@.ids().take(k as int) =~= self@.ids());
        ids
    }

    /// The ids of the notifications that are shown: the newest, at most
    /// [`VISIBLE_MAX`] of them, oldest first.
    pub fn visible(&self) -> (r: Vec<NotificationId>)
        ensures
            r@ == self@.visible(),
    {
        let n = self.notifications.len();
        let start: usize = if n > VISIBLE_MAX {
            n - VISIBLE_MAX
        } else {
            0
        };
        let mut ids: Vec<NotificationId> = Vec::new();
        let mut k: usize = start;
        while k < n
            invariant
                start <= k <= n,
                n == self.notifications.len(),
                ids@ == self@.ids().subrange(start as int, k as int),
            decreases n - k,
        {
            ids.push(self.notifications[k].id);
            assert(ids@ =~= self@.ids().subrange(start as int, k + 1));
            k = k + 1;
        }
        assert(self@.ids().subrange(0, n as int) =~= self@.ids());
        ids
    }
}

} // verus!
