//! The tag store: user-owned tags and the references (by id or by name)
//! that transactions attach them with.

use vstd::prelude::*;

verus! {

/// One stored tag.
#[derive(Debug)]
pub struct Tag {
    pub id: i32,
    pub name: String,
    pub user_id: i32,
}

impl Clone for Tag {
    fn clone(&self) -> (r: Self)
        ensures
            r == *self,
    {
        Tag { id: self.id, name: self.name.clone(), user_id: self.user_id }
    }
}

/// A tag projection without the owner.
#[derive(Debug)]
pub struct TagDto {
    pub id: i32,
    pub name: String,
}

/// The field values of a tag row about to be inserted.
#[derive(Debug)]
pub struct NewTag {
    pub name: String,
    pub user_id: i32,
}

/// The tag creation request body.
#[derive(Debug)]
pub struct TagPayload {
    pub name: String,
}

/// How a transaction refers to one tag: an existing row's id, or a name
/// resolved (and created when absent) at write time.
#[derive(Debug)]
pub enum TagReference {
    Id(i32),
    Name(String),
}

impl Clone for TagReference {
    fn clone(&self) -> (r: Self)
        ensures
            r == *self,
    {
        match self {
            TagReference::Id(t) => TagReference::Id(*t),
            TagReference::Name(n) => TagReference::Name(n.clone()),
        }
    }
}

/// Whether the user already owns a tag with exactly this name.
pub open spec fn has_tag_named(tags: Seq<Tag>, user_id: i32, name: Seq<char>) -> bool {
    exists|i: int| 0 <= i < tags.len() && tags[i].user_id == user_id && tags[i].name@ == name
}

/// Whether some tag carries this id.
pub open spec fn has_tag_id(tags: Seq<Tag>, id: i32) -> bool {
    exists|i: int| 0 <= i < tags.len() && tags[i].id == id
}

/// Finds the tag owned by `user_id` with exactly this name, if any.
pub fn find_tag_by_name(tags: &Vec<Tag>, user_id: i32, name: &str) -> (r: Option<usize>)
    ensures
        match r {
            Some(i) => i < tags@.len() && tags@[i as int].user_id == user_id && tags@[
                i as int
            ].name@ == name@,
            None => !has_tag_named(tags@, user_id, name@),
        },
{
    let mut i: usize = 0;
    while i < tags.len()
        invariant
            0 <= i <= tags@.len(),
            forall|k: int| 0 <= k < i ==> !(tags@[k].user_id == user_id && tags@[k].name@ == name@),
        decreases tags@.len() - i,
    {
        if tags[i].user_id == user_id && crate::text::str_eq(tags[i].name.as_str(), name) {
            return Some(i);
        }
        i = i + 1;
    }
    None
}

/// Finds the tag with this id, if any.
pub fn find_tag_by_id(tags: &Vec<Tag>, id: i32) -> (r: Option<usize>)
    ensures
        match r {
            Some(i) => i < tags@.len() && tags@[i as int].id == id,
            None => !has_tag_id(tags@, id),
        },
{
    let mut i: usize = 0;
    while i < tags.len()
        invariant
            0 <= i <= tags@.len(),
            forall|k: int| 0 <= k < i ==> tags@[k].id != id,
        decreases tags@.len() - i,
    {
        if tags[i].id == id {
            return Some(i);
        }
        i = i + 1;
    }
    None
}

} // verus!

verus! {

use crate::errors::ApiError;
use crate::store::{tags_wf, Store};

/// The tags owned by one user, in insertion order.
pub open spec fn tags_of(tags: Seq<Tag>, user_id: i32) -> Seq<Tag> {
    tags.filter(|t: Tag| t.user_id == user_id)
}

/// The id of the tag owned by `user_id` with this name; meaningful only
/// when one exists.
pub open spec fn tag_named_id(tags: Seq<Tag>, user_id: i32, name: Seq<char>) -> i32 {
    let i = choose|i: int| 0 <= i < tags.len() && tags[i].user_id == user_id && tags[i].name@
        == name;
    tags[i].id
}

/// Which error tag creation returns, if any: a name the user already
/// holds is a conflict.
pub open spec fn create_tag_err(tags: Seq<Tag>, user_id: i32, p: TagPayload) -> Option<ApiError> {
    if has_tag_named(tags, user_id, p.name@) {
        Some(ApiError::DuplicateTag)
    } else {
        None
    }
}

/// Appending a fresh-id row whose (user, name) pair is not yet taken
/// keeps the tag table well formed.
pub proof fn lemma_tags_push_wf(tags: Seq<Tag>, next: i32, t: Tag)
    requires
        tags_wf(tags, next),
        t.id == next,
        next < i32::MAX,
        !has_tag_named(tags, t.user_id, t.name@),
    ensures
        tags_wf(tags.push(t), (next + 1) as i32),
{
    let s = tags.push(t);
    assert(s.len() == tags.len() + 1);
    assert forall|i: int| 0 <= i < s.len() implies 0 < (#[trigger] s[i]).id < next + 1 by {
        if i < tags.len() {
            assert(s[i] == tags[i]);
            assert(0 < tags[i].id < next);
        } else {
            assert(s[i] == t);
        }
    }
    assert forall|i: int, j: int| 0 <= i < j < s.len() implies #[trigger] s[i].id
        != #[trigger] s[j].id by {
        if j == tags.len() {
            assert(s[i] == tags[i]);
            assert(s[j] == t);
        } else {
            assert(s[i] == tags[i]);
            assert(s[j] == tags[j]);
        }
    }
    assert forall|i: int, j: int|
        0 <= i < j < s.len() && #[trigger] s[i].user_id == #[trigger] s[j].user_id implies s[
        i
    ].name@ != s[j].name@ by {
        if j == tags.len() {
            assert(s[i] == tags[i]);
            assert(s[j] == t);
            assert(!(tags[i].user_id == t.user_id && tags[i].name@ == t.name@));
        } else {
            assert(s[i] == tags[i]);
            assert(s[j] == tags[j]);
        }
    }
}

/// A tag visible before stays visible after rows are appended.
pub proof fn lemma_has_tag_id_grow(tags: Seq<Tag>, grown: Seq<Tag>, id: i32)
    requires
        has_tag_id(tags, id),
        tags.len() <= grown.len(),
        forall|k: int| 0 <= k < tags.len() ==> grown[k] == tags[k],
    ensures
        has_tag_id(grown, id),
{
    let i = choose|i: int| 0 <= i < tags.len() && tags[i].id == id;
    assert(grown[i].id == id);
}

/// With names unique per user, any matching index yields the id that
/// `tag_named_id` names.
pub proof fn lemma_tag_named_id_agrees(tags: Seq<Tag>, user_id: i32, name: Seq<char>, i: int, next: i32)
    requires
        tags_wf(tags, next),
        0 <= i < tags.len(),
        tags[i].user_id == user_id,
        tags[i].name@ == name,
    ensures
        tag_named_id(tags, user_id, name) == tags[i].id,
{
    let j = choose|j: int| 0 <= j < tags.len() && tags[j].user_id == user_id && tags[j].name@
        == name;
    if i != j {
        if i < j {
            assert(tags[i].name@ != tags[j].name@);
        } else {
            assert(tags[j].name@ != tags[i].name@);
        }
    }
}

impl Store {
    /// Creates a tag for this user; a name the user already holds is a
    /// conflict, and an error leaves the store exactly as it was.
    pub fn create_tag(&mut self, user_id: i32, payload: TagPayload) -> (r: Result<Tag, ApiError>)
        requires
            old(self).wf(),
            old(self).next_tag_id < i32::MAX,
        ensures
            final(self).wf(),
            r matches Err(e) ==> *final(self) == *old(self) && create_tag_err(
                old(self).tags@,
                user_id,
                payload,
            ) == Some(e),
            r matches Ok(row) ==> {
                &&& create_tag_err(old(self).tags@, user_id, payload) is None
                &&& old(self).same_but_tags(*final(self))
                &&& final(self).next_tag_id == old(self).next_tag_id + 1
                &&& final(self).tags@.len() == old(self).tags@.len() + 1
                &&& forall|k: int|
                    0 <= k < old(self).tags@.len() ==> final(self).tags@[k] == old(self).tags@[k]
                &&& final(self).tags@.last().id == old(self).next_tag_id
                &&& final(self).tags@.last().name@ == payload.name@
                &&& final(self).tags@.last().user_id == user_id
                &&& row == final(self).tags@.last()
            },
    {
        let ghost s0 = *self;
        if find_tag_by_name(&self.tags, user_id, payload.name.as_str()).is_some() {
            return Err(ApiError::DuplicateTag);
        }
        let tid = self.next_tag_id;
        let tag_row = Tag { id: tid, name: payload.name, user_id };
        let response_row = tag_row.clone();
        proof {
            lemma_tags_push_wf(self.tags@, self.next_tag_id, tag_row);
        }
        self.tags.push(tag_row);
        self.next_tag_id = tid + 1;
        proof {
            assert forall|i: int|
                0 <= i < self.transaction_tags@.len() implies has_tag_id(
                self.tags@,
                (#[trigger] self.transaction_tags@[i]).tag_id,
            ) by {
                lemma_has_tag_id_grow(s0.tags@, self.tags@, self.transaction_tags@[i].tag_id);
            }
        }
        Ok(response_row)
    }

    /// Lists this user's tags, in insertion order.
    pub fn list_tags(&self, user_id: i32) -> (r: Vec<Tag>)
        ensures
            r@ == tags_of(self.tags@, user_id),
    {
        let mut out: Vec<Tag> = Vec::new();
        let mut i: usize = 0;
        proof {
            assert(self.tags@.take(0) =~= Seq::<Tag>::empty());
            reveal(Seq::filter);
        }
        while i < self.tags.len()
            invariant
                0 <= i <= self.tags@.len(),
                out@ == tags_of(self.tags@.take(i as int), user_id),
            decreases self.tags@.len() - i,
        {
            proof {
                broadcast use Seq::lemma_filter_push;

                assert(self.tags@.take(i + 1) =~= self.tags@.take(i as int).push(
                    self.tags@[i as int],
                ));
            }
            if self.tags[i].user_id == user_id {
                out.push(self.tags[i].clone());
            }
            i = i + 1;
        }
        proof {
            assert(self.tags@.take(self.tags@.len() as int) =~= self.tags@);
        }
        out
    }
}

} // verus!
