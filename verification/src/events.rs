//! The event parser: one raw feed line becomes one typed event.
//!
//! A feed line carries an operation tag and a resource URI:
//! `PUT pubky://{user_id}/pub/pubky.app/{resource path}` (or `DEL …`).  The
//! grammar is pinned by the spec function [`parse_line`]; `parse_event`
//! returns exactly what the grammar says, and a line the grammar rejects is
//! malformed input — dropped, never retried.
//!
//! Moderation is consulted before tag events mutate any index: a rejected
//! owner/label combination is skipped but still counts as handled.

use crate::text::{is_prefix_of, str_drop_prefix, str_eq, str_find, str_starts_with};
use vstd::prelude::*;

verus! {

/// The operation a feed line announces.
#[derive(Clone, Copy, PartialEq, Eq, Structural)]
pub enum EventType {
    Put,
    Del,
}

/// The resource a feed line is about, with its owner-relative id.
pub enum Resource {
    User,
    Post(String),
    Follow(String),
    Mute(String),
    Bookmark(String),
    Tag(String),
}

/// A typed event: one unit of work, never persisted.
pub struct Event {
    /// The resource URI as the feed carried it.
    pub uri: String,
    pub event_type: EventType,
    /// The user whose data the event is about.
    pub user_id: String,
    pub resource: Resource,
}

/// What an event means, over character sequences.
pub struct EventView {
    pub put: bool,
    pub uri: Seq<char>,
    pub user_id: Seq<char>,
    pub resource: ResourceView,
}

/// What a resource reference means, over character sequences.
pub enum ResourceView {
    User,
    Post(Seq<char>),
    Follow(Seq<char>),
    Mute(Seq<char>),
    Bookmark(Seq<char>),
    Tag(Seq<char>),
}

impl Resource {
    pub open spec fn view(self) -> ResourceView {
        match self {
            Resource::User => ResourceView::User,
            Resource::Post(id) => ResourceView::Post(id@),
            Resource::Follow(id) => ResourceView::Follow(id@),
            Resource::Mute(id) => ResourceView::Mute(id@),
            Resource::Bookmark(id) => ResourceView::Bookmark(id@),
            Resource::Tag(id) => ResourceView::Tag(id@),
        }
    }
}

impl Event {
    pub open spec fn view(self) -> EventView {
        EventView {
            put: self.event_type is Put,
            uri: self.uri@,
            user_id: self.user_id@,
            resource: self.resource.view(),
        }
    }
}

/// Why an event could not be processed.
#[derive(Clone, Copy, PartialEq, Eq, Structural, Debug)]
pub enum EventError {
    /// The line does not follow the feed grammar: malformed input, dropped.
    InvalidEventLine,
    /// The graph store has no record for the event's resource yet: a
    /// retryable application failure.
    MissingDependency,
}

/// The first position of `c` in `s`, if any.
pub open spec fn first_index(s: Seq<char>, c: char) -> Option<int>
    decreases s.len(),
{
    if s.len() == 0 {
        None
    } else if s[0] == c {
        Some(0)
    } else {
        match first_index(s.drop_first(), c) {
            Some(i) => Some(i + 1),
            None => None,
        }
    }
}

pub proof fn lemma_first_index(s: Seq<char>, c: char)
    ensures
        match first_index(s, c) {
            Some(i) => 0 <= i < s.len() && s[i] == c && forall|j: int| 0 <= j < i ==> s[j] != c,
            None => forall|j: int| 0 <= j < s.len() ==> s[j] != c,
        },
    decreases s.len(),
{
    if s.len() > 0 && s[0] != c {
        lemma_first_index(s.drop_first(), c);
        match first_index(s.drop_first(), c) {
            Some(i) => {
                assert(s.drop_first()[i] == s[i + 1]);
                assert forall|j: int| 0 <= j < i + 1 implies s[j] != c by {
                    if j > 0 {
                        assert(s.drop_first()[j - 1] == s[j]);
                    }
                }
            },
            None => {
                assert forall|j: int| 0 <= j < s.len() implies s[j] != c by {
                    if j > 0 {
                        assert(s.drop_first()[j - 1] == s[j]);
                    }
                }
            },
        }
    }
}

/// The resource named by an owner-relative path under the application
/// directory.
pub open spec fn parse_resource(p: Seq<char>) -> Option<ResourceView> {
    if p == "profile.json"@ {
        Some(ResourceView::User)
    } else if is_prefix_of("posts/"@, p) && p.len() > "posts/"@.len() {
        Some(ResourceView::Post(p.subrange("posts/"@.len() as int, p.len() as int)))
    } else if is_prefix_of("follows/"@, p) && p.len() > "follows/"@.len() {
        Some(ResourceView::Follow(p.subrange("follows/"@.len() as int, p.len() as int)))
    } else if is_prefix_of("mutes/"@, p) && p.len() > "mutes/"@.len() {
        Some(ResourceView::Mute(p.subrange("mutes/"@.len() as int, p.len() as int)))
    } else if is_prefix_of("bookmarks/"@, p) && p.len() > "bookmarks/"@.len() {
        Some(ResourceView::Bookmark(p.subrange("bookmarks/"@.len() as int, p.len() as int)))
    } else if is_prefix_of("tags/"@, p) && p.len() > "tags/"@.len() {
        Some(ResourceView::Tag(p.subrange("tags/"@.len() as int, p.len() as int)))
    } else {
        None
    }
}

/// The event grammar: operation tag, scheme, owning user, application
/// directory, resource path.
pub open spec fn parse_line(s: Seq<char>) -> Option<EventView> {
    let put = is_prefix_of("PUT "@, s);
    let del = is_prefix_of("DEL "@, s);
    if !put && !del {
        None
    } else {
        let uri = s.subrange("PUT "@.len() as int, s.len() as int);
        if !is_prefix_of("pubky://"@, uri) {
            None
        } else {
            let rest = uri.subrange("pubky://"@.len() as int, uri.len() as int);
            match first_index(rest, '/') {
                None => None,
                Some(i) => {
                    if i == 0 {
                        None
                    } else {
                        let user = rest.subrange(0, i);
                        let path = rest.subrange(i + 1, rest.len() as int);
                        if !is_prefix_of("pub/pubky.app/"@, path) {
                            None
                        } else {
                            let tail = path.subrange(
                                "pub/pubky.app/"@.len() as int,
                                path.len() as int,
                            );
                            match parse_resource(tail) {
                                None => None,
                                Some(res) => Some(
                                    EventView { put, uri, user_id: user, resource: res },
                                ),
                            }
                        }
                    }
                },
            }
        }
    }
}

/// Parse one owner-relative resource path.
fn parse_resource_exec(p: &str) -> (r: Option<Resource>)
    ensures
        match r {
            Some(res) => parse_resource(p@) == Some(res.view()),
            None => parse_resource(p@) is None,
        },
{
    if str_eq(p, "profile.json") {
        Some(Resource::User)
    } else if str_starts_with(p, "posts/") && p.unicode_len() > "posts/".unicode_len() {
        let id = str_drop_prefix(p, "posts/".unicode_len());
        Some(Resource::Post(id))
    } else if str_starts_with(p, "follows/") && p.unicode_len() > "follows/".unicode_len() {
        let id = str_drop_prefix(p, "follows/".unicode_len());
        Some(Resource::Follow(id))
    } else if str_starts_with(p, "mutes/") && p.unicode_len() > "mutes/".unicode_len() {
        let id = str_drop_prefix(p, "mutes/".unicode_len());
        Some(Resource::Mute(id))
    } else if str_starts_with(p, "bookmarks/") && p.unicode_len() > "bookmarks/".unicode_len() {
        let id = str_drop_prefix(p, "bookmarks/".unicode_len());
        Some(Resource::Bookmark(id))
    } else if str_starts_with(p, "tags/") && p.unicode_len() > "tags/".unicode_len() {
        let id = str_drop_prefix(p, "tags/".unicode_len());
        Some(Resource::Tag(id))
    } else {
        None
    }
}

/// Turn one raw feed line into a typed event; a line outside the grammar is
/// malformed input.
pub fn parse_event(line: &str) -> (r: Result<Event, EventError>)
    ensures
        match r {
            Ok(ev) => parse_line(line@) == Some(ev.view()),
            Err(e) => parse_line(line@) is None && e == EventError::InvalidEventLine,
        },
{
    let put = str_starts_with(line, "PUT ");
    let del = str_starts_with(line, "DEL ");
    if !put && !del {
        return Err(EventError::InvalidEventLine);
    }
    proof {
        reveal_strlit("PUT ");
        reveal_strlit("DEL ");
        assert("PUT "@.len() == 4);
        assert("DEL "@.len() == 4);
    }
    let uri = str_drop_prefix(line, "PUT ".unicode_len());
    if !str_starts_with(uri.as_str(), "pubky://") {
        return Err(EventError::InvalidEventLine);
    }
    let rest = str_drop_prefix(uri.as_str(), "pubky://".unicode_len());
    let slash = match str_find(rest.as_str(), '/') {
        Some(i) => i,
        None => {
            proof {
                lemma_first_index(rest@, '/');
                if first_index(rest@, '/') is Some {
                    let i = first_index(rest@, '/')->0;
                }
            }
            return Err(EventError::InvalidEventLine);
        },
    };
    proof {
        lemma_first_index(rest@, '/');
        match first_index(rest@, '/') {
            Some(i) => {
                assert(rest@[i] == '/');
                assert(rest@[slash as int] == '/');
                if i < slash {
                    assert(rest@[i] != '/');
                }
                if slash < i {
                    assert(rest@[slash as int] != '/');
                }
                assert(i == slash as int);
            },
            None => {
                assert(rest@[slash as int] == '/');
            },
        }
    }
    if slash == 0 {
        return Err(EventError::InvalidEventLine);
    }
    let rest_len = rest.as_str().unicode_len();
    let user = rest.as_str().substring_char(0, slash).to_owned();
    let path = rest.as_str().substring_char(slash + 1, rest_len).to_owned();
    if !str_starts_with(path.as_str(), "pub/pubky.app/") {
        return Err(EventError::InvalidEventLine);
    }
    let tail = str_drop_prefix(path.as_str(), "pub/pubky.app/".unicode_len());
    match parse_resource_exec(tail.as_str()) {
        Some(res) => {
            let ev = Event {
                uri,
                event_type: if put {
                    EventType::Put
                } else {
                    EventType::Del
                },
                user_id: user,
                resource: res,
            };
            Ok(ev)
        },
        None => Err(EventError::InvalidEventLine),
    }
}

/// The moderation policy: which owner/label combinations may touch the tag
/// indexes.
pub struct Moderation {
    /// The moderated account.
    pub id: String,
    /// The labels moderated on that account.
    pub tags: Vec<String>,
}

impl Moderation {
    /// Whether a tag event for this owner and label may mutate the indexes.
    pub open spec fn spec_allowed(self, user_id: Seq<char>, label: Seq<char>) -> bool {
        !(user_id == self.id@ && crate::lists::views_of(self.tags@).contains(label))
    }

    pub fn new(id: String, tags: Vec<String>) -> (r: Self)
        ensures
            r.id == id,
            r.tags == tags,
    {
        Moderation { id, tags }
    }

    /// A copy of the policy, field for field.
    pub fn duplicate(&self) -> (r: Self)
        ensures
            r.id@ == self.id@,
            crate::lists::views_of(r.tags@) == crate::lists::views_of(self.tags@),
    {
        Moderation { id: self.id.clone(), tags: crate::lists::clone_strings(&self.tags) }
    }

    /// Consulted before tag events mutate any index.
    pub fn is_allowed(&self, user_id: &str, label: &str) -> (r: bool)
        ensures
            r == self.spec_allowed(user_id@, label@),
    {
        if str_eq(user_id, self.id.as_str()) {
            !crate::lists::contains_string(&self.tags, label)
        } else {
            true
        }
    }
}

} // verus!
