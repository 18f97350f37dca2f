//! The cached record shapes: what the denormalized projections hold for
//! each entity.
//!
//! Counters are plain integers; a counts record exists at most once per
//! entity and is created atomically by the handlers through
//! `Table::create_if_absent`.  Detail records carry the fields the read
//! side serves.  Every type with owned text offers `duplicate`, a copy
//! whose contract says the copy equals the original.

use vstd::prelude::*;

verus! {

/// Cached profile details of one user.
pub struct UserDetails {
    pub id: String,
    pub name: String,
}

impl UserDetails {
    pub fn new(id: String, name: String) -> (r: Self)
        ensures
            r.id == id,
            r.name == name,
    {
        UserDetails { id, name }
    }

    pub fn duplicate(&self) -> (r: Self)
        ensures
            r.id@ == self.id@,
            r.name@ == self.name@,
    {
        UserDetails { id: self.id.clone(), name: self.name.clone() }
    }
}

/// Derived counters of one user.
#[derive(Clone, Copy, PartialEq, Eq, Structural)]
pub struct UserCounts {
    pub followers: u64,
    pub following: u64,
    pub posts: u64,
    pub tags: u64,
}

impl UserCounts {
    /// The record a brand-new user starts from.
    pub fn zeroed() -> (r: Self)
        ensures
            r.followers == 0 && r.following == 0 && r.posts == 0 && r.tags == 0,
    {
        UserCounts { followers: 0, following: 0, posts: 0, tags: 0 }
    }
}

/// Cached details of one post.
pub struct PostDetails {
    pub id: String,
    pub author: String,
    pub content: String,
    pub indexed_at: u64,
}

impl PostDetails {
    pub fn duplicate(&self) -> (r: Self)
        ensures
            r.id@ == self.id@,
            r.author@ == self.author@,
            r.content@ == self.content@,
            r.indexed_at == self.indexed_at,
    {
        PostDetails {
            id: self.id.clone(),
            author: self.author.clone(),
            content: self.content.clone(),
            indexed_at: self.indexed_at,
        }
    }
}

/// Derived counters of one post.
#[derive(Clone, Copy, PartialEq, Eq, Structural)]
pub struct PostCounts {
    pub tags: u64,
    pub replies: u64,
    pub reposts: u64,
}

impl PostCounts {
    /// The record a brand-new post starts from.
    pub fn zeroed() -> (r: Self)
        ensures
            r.tags == 0 && r.replies == 0 && r.reposts == 0,
    {
        PostCounts { tags: 0, replies: 0, reposts: 0 }
    }
}

/// How a post relates to other posts.
#[derive(Clone, Copy, PartialEq, Eq, Structural)]
pub struct PostRelationships {
    pub replied: bool,
    pub reposted: bool,
}

impl PostRelationships {
    pub fn none() -> (r: Self)
        ensures
            r.replied == false && r.reposted == false,
    {
        PostRelationships { replied: false, reposted: false }
    }
}

/// One tag on an entity: the label and who applied it.
pub struct TagDetails {
    pub label: String,
    pub taggers: Vec<String>,
}

impl TagDetails {
    pub fn duplicate(&self) -> (r: Self)
        ensures
            r.label@ == self.label@,
            crate::lists::views_of(r.taggers@) == crate::lists::views_of(self.taggers@),
    {
        TagDetails { label: self.label.clone(), taggers: crate::lists::clone_strings(&self.taggers) }
    }
}

/// A viewer's bookmark on a post.
pub struct Bookmark {
    pub id: String,
    pub indexed_at: u64,
}

impl Bookmark {
    pub fn duplicate(&self) -> (r: Self)
        ensures
            r.id@ == self.id@,
            r.indexed_at == self.indexed_at,
    {
        Bookmark { id: self.id.clone(), indexed_at: self.indexed_at }
    }
}

} // verus!
