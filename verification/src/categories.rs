//! The category store: user-owned, optionally nested categories with a
//! resolve-or-create write path.

use vstd::prelude::*;

verus! {

/// One stored category. `parent_category_id` may reference another
/// category of the same user, or dangle; the store does not enforce it.
#[derive(Debug)]
pub struct Category {
    pub id: i32,
    pub parent_category_id: Option<i32>,
    pub name: String,
    pub user_id: i32,
}

impl Clone for Category {
    fn clone(&self) -> (r: Self)
        ensures
            r == *self,
    {
        Category {
            id: self.id,
            parent_category_id: self.parent_category_id,
            name: self.name.clone(),
            user_id: self.user_id,
        }
    }
}

/// The field values of a category row about to be inserted.
#[derive(Debug)]
pub struct NewCategory {
    pub user_id: i32,
    pub parent_category_id: Option<i32>,
    pub name: String,
}

/// The creation request body: the parent may be named by id or by name.
#[derive(Debug)]
pub struct CategoryPayload {
    pub parent_category_id: Option<i32>,
    pub parent_category_name: Option<String>,
    pub name: String,
}

/// A category projection without the owner.
#[derive(Debug)]
pub struct CategoryDto {
    pub id: i32,
    pub name: String,
}

impl Clone for CategoryDto {
    fn clone(&self) -> (r: Self)
        ensures
            r == *self,
    {
        CategoryDto { id: self.id, name: self.name.clone() }
    }
}

/// What category creation returns: the new row and, when one is set, the
/// resolved parent.
#[derive(Debug)]
pub struct CreateCategoryResponse {
    pub category: Category,
    pub parent: Option<CategoryDto>,
}

/// Whether the user already owns a category with exactly this name.
pub open spec fn has_category_named(cats: Seq<Category>, user_id: i32, name: Seq<char>) -> bool {
    exists|i: int| 0 <= i < cats.len() && cats[i].user_id == user_id && cats[i].name@ == name
}

/// Whether some category carries this id.
pub open spec fn has_category_id(cats: Seq<Category>, id: i32) -> bool {
    exists|i: int| 0 <= i < cats.len() && cats[i].id == id
}

/// Finds the category owned by `user_id` with exactly this name, if any.
pub fn find_category_by_name(cats: &Vec<Category>, user_id: i32, name: &str) -> (r: Option<usize>)
    ensures
        match r {
            Some(i) => i < cats@.len() && cats@[i as int].user_id == user_id && cats@[
                i as int
            ].name@ == name@,
            None => !has_category_named(cats@, user_id, name@),
        },
{
    let mut i: usize = 0;
    while i < cats.len()
        invariant
            0 <= i <= cats@.len(),
            forall|k: int| 0 <= k < i ==> !(cats@[k].user_id == user_id && cats@[k].name@ == name@),
        decreases cats@.len() - i,
    {
        if cats[i].user_id == user_id && crate::text::str_eq(cats[i].name.as_str(), name) {
            return Some(i);
        }
        i = i + 1;
    }
    None
}

/// Finds the category with this id, if any.
pub fn find_category_by_id(cats: &Vec<Category>, id: i32) -> (r: Option<usize>)
    ensures
        match r {
            Some(i) => i < cats@.len() && cats@[i as int].id == id,
            None => !has_category_id(cats@, id),
        },
{
    let mut i: usize = 0;
    while i < cats.len()
        invariant
            0 <= i <= cats@.len(),
            forall|k: int| 0 <= k < i ==> cats@[k].id != id,
        decreases cats@.len() - i,
    {
        if cats[i].id == id {
            return Some(i);
        }
        i = i + 1;
    }
    None
}

} // verus!

verus! {

use crate::errors::ApiError;
use crate::store::{categories_wf, Store};
use crate::text::{is_blank, trim_spec};

/// The categories owned by one user, in insertion order.
pub open spec fn categories_of(cats: Seq<Category>, user_id: i32) -> Seq<Category> {
    cats.filter(|c: Category| c.user_id == user_id)
}

/// The id of the category owned by `user_id` with this name; meaningful
/// only when one exists.
pub open spec fn cat_named_id(cats: Seq<Category>, user_id: i32, name: Seq<char>) -> i32 {
    let i = choose|i: int| 0 <= i < cats.len() && cats[i].user_id == user_id && cats[i].name@
        == name;
    cats[i].id
}

/// Whether resolving the parent reference of this payload inserts a new
/// top-level category: a parent is named, the name is not blank, and the
/// user owns no category with the trimmed name.
pub open spec fn parent_creates(cats: Seq<Category>, user_id: i32, p: CategoryPayload) -> bool {
    p.parent_category_id is None && match p.parent_category_name {
        Some(n) => {
            let t = trim_spec(n@);
            t.len() > 0 && !has_category_named(cats, user_id, t)
        },
        None => false,
    }
}

/// The parent id the new category ends up with: an explicit id is used
/// as-is (never checked), a name is resolved or created, and a blank or
/// absent reference means no parent. `next_id` is the id a created parent
/// receives.
pub open spec fn parent_id_spec(
    cats: Seq<Category>,
    user_id: i32,
    p: CategoryPayload,
    next_id: i32,
) -> Option<i32> {
    if p.parent_category_id is Some {
        p.parent_category_id
    } else {
        match p.parent_category_name {
            Some(n) => {
                let t = trim_spec(n@);
                if t.len() == 0 {
                    None
                } else if has_category_named(cats, user_id, t) {
                    Some(cat_named_id(cats, user_id, t))
                } else {
                    Some(next_id)
                }
            },
            None => None,
        }
    }
}

/// Which error category creation returns, if any: a blank name is a
/// validation failure, and a name the user already holds (or is about to
/// hold, through a created parent) is a conflict.
pub open spec fn create_category_err(cats: Seq<Category>, user_id: i32, p: CategoryPayload) -> Option<
    ApiError,
> {
    if is_blank(p.name@) {
        Some(ApiError::BlankCategoryName)
    } else {
        let clashes_with_new_parent = match p.parent_category_name {
            Some(n) => parent_creates(cats, user_id, p) && trim_spec(n@) == p.name@,
            None => false,
        };
        if has_category_named(cats, user_id, p.name@) || clashes_with_new_parent {
            Some(ApiError::DuplicateCategory)
        } else {
            None
        }
    }
}

/// What a successful category creation did: the parent resolved per
/// `parent_id_spec` (inserting one top-level row when it created), the new
/// category appended with the next id, nothing else touched, and the
/// response echoing the committed rows.
pub open spec fn create_category_ok(
    s0: Store,
    s1: Store,
    user_id: i32,
    p: CategoryPayload,
    resp: CreateCategoryResponse,
) -> bool {
    let cats0 = s0.categories@;
    let creates = parent_creates(cats0, user_id, p);
    let pid = parent_id_spec(cats0, user_id, p, s0.next_category_id);
    let grown = if creates {
        2int
    } else {
        1int
    };
    &&& s0.same_but_categories(s1)
    &&& s1.next_category_id == s0.next_category_id + grown
    &&& s1.categories@.len() == cats0.len() + grown
    &&& forall|k: int| 0 <= k < cats0.len() ==> s1.categories@[k] == cats0[k]
    &&& creates ==> {
        let pc = s1.categories@[cats0.len() as int];
        &&& pc.id == s0.next_category_id
        &&& pc.parent_category_id is None
        &&& match p.parent_category_name {
            Some(n) => pc.name@ == trim_spec(n@),
            None => false,
        }
        &&& pc.user_id == user_id
    }
    &&& {
        let c = s1.categories@.last();
        &&& c.id == s0.next_category_id + grown - 1
        &&& c.parent_category_id == pid
        &&& c.name@ == p.name@
        &&& c.user_id == user_id
    }
    &&& resp.category == s1.categories@.last()
    &&& match resp.parent {
        Some(dto) => pid == Some(dto.id) && exists|i: int|
            0 <= i < s1.categories@.len() && s1.categories@[i].id == dto.id && s1.categories@[
                i
            ].name@ == dto.name@,
        None => match pid {
            Some(x) => !has_category_id(s1.categories@, x),
            None => true,
        },
    }
}

/// The category row with this id; meaningful only when one exists.
pub open spec fn category_of(cats: Seq<Category>, id: i32) -> Category {
    let i = choose|i: int| 0 <= i < cats.len() && cats[i].id == id;
    cats[i]
}

/// With unique ids, any matching index yields the row that `category_of`
/// names.
pub proof fn lemma_category_of_agrees(cats: Seq<Category>, id: i32, i: int, next: i32)
    requires
        categories_wf(cats, next),
        0 <= i < cats.len(),
        cats[i].id == id,
    ensures
        category_of(cats, id) == cats[i],
{
    let j = choose|j: int| 0 <= j < cats.len() && cats[j].id == id;
    if i != j {
        if i < j {
            assert(cats[i].id != cats[j].id);
        } else {
            assert(cats[j].id != cats[i].id);
        }
    }
}

/// Appending a fresh-id row whose (user, name) pair is not yet taken
/// keeps the category table well formed.
pub proof fn lemma_categories_push_wf(cats: Seq<Category>, next: i32, c: Category)
    requires
        categories_wf(cats, next),
        c.id == next,
        next < i32::MAX,
        !has_category_named(cats, c.user_id, c.name@),
    ensures
        categories_wf(cats.push(c), (next + 1) as i32),
{
    let s = cats.push(c);
    assert(s.len() == cats.len() + 1);
    assert forall|i: int| 0 <= i < s.len() implies 0 < (#[trigger] s[i]).id < next + 1 by {
        if i < cats.len() {
            assert(s[i] == cats[i]);
            assert(0 < cats[i].id < next);
        } else {
            assert(s[i] == c);
        }
    }
    assert forall|i: int, j: int| 0 <= i < j < s.len() implies #[trigger] s[i].id
        != #[trigger] s[j].id by {
        if j == cats.len() {
            assert(s[i] == cats[i]);
            assert(s[j] == c);
        } else {
            assert(s[i] == cats[i]);
            assert(s[j] == cats[j]);
        }
    }
    assert forall|i: int, j: int|
        0 <= i < j < s.len() && #[trigger] s[i].user_id == #[trigger] s[j].user_id implies s[
        i
    ].name@ != s[j].name@ by {
        if j == cats.len() {
            assert(s[i] == cats[i]);
            assert(s[j] == c);
            assert(!(cats[i].user_id == c.user_id && cats[i].name@ == c.name@));
        } else {
            assert(s[i] == cats[i]);
            assert(s[j] == cats[j]);
        }
    }
}

impl Store {
    /// Creates a category for this user, resolving the parent reference
    /// first: an explicit parent id is taken as-is, a parent name is
    /// looked up and created as a new top-level category when absent, and
    /// a blank one means no parent. A blank category name is rejected,
    /// and a name the user already holds is a conflict; on any error the
    /// store is left exactly as it was.
    pub fn create_category(&mut self, user_id: i32, payload: CategoryPayload) -> (r: Result<
        CreateCategoryResponse,
        ApiError,
    >)
        requires
            old(self).wf(),
            old(self).next_category_id <= i32::MAX - 2,
        ensures
            final(self).wf(),
            r matches Err(e) ==> *final(self) == *old(self) && create_category_err(
                old(self).categories@,
                user_id,
                payload,
            ) == Some(e),
            r matches Ok(resp) ==> create_category_err(old(self).categories@, user_id, payload)
                is None && create_category_ok(*old(self), *final(self), user_id, payload, resp),
    {
        let ghost s0 = *self;
        let ghost cats0 = self.categories@;
        if crate::text::is_blank_str(payload.name.as_str()) {
            return Err(ApiError::BlankCategoryName);
        }
        // Resolve the parent reference against the untouched table.
        let mut parent_id: Option<i32> = None;
        let mut parent_to_create: Option<String> = None;
        match payload.parent_category_id {
            Some(pid) => {
                parent_id = Some(pid);
            },
            None => {
                match &payload.parent_category_name {
                    Some(pn) => {
                        let t = crate::text::trim_str(pn.as_str());
                        if !t.as_str().is_empty() {
                            match find_category_by_name(&self.categories, user_id, t.as_str()) {
                                Some(i) => {
                                    parent_id = Some(self.categories[i].id);
                                    proof {
                                        lemma_cat_named_id_agrees(
                                            cats0,
                                            user_id,
                                            t@,
                                            i as int,
                                            s0.next_category_id,
                                        );
                                    }
                                },
                                None => {
                                    parent_to_create = Some(t);
                                },
                            }
                        }
                    },
                    None => {},
                }
            },
        }
        // All failure conditions are checked before anything is written,
        // so an error leaves no partial state.
        if find_category_by_name(&self.categories, user_id, payload.name.as_str()).is_some() {
            return Err(ApiError::DuplicateCategory);
        }
        match &parent_to_create {
            Some(t) => {
                if crate::text::str_eq(t.as_str(), payload.name.as_str()) {
                    return Err(ApiError::DuplicateCategory);
                }
            },
            None => {},
        }
        // Write phase: the parent first, when one is created.
        let mut final_parent_id = parent_id;
        match parent_to_create {
            Some(t) => {
                let pid = self.next_category_id;
                let parent_row = Category {
                    id: pid,
                    parent_category_id: None,
                    name: t,
                    user_id,
                };
                proof {
                    lemma_categories_push_wf(self.categories@, self.next_category_id, parent_row);
                }
                self.categories.push(parent_row);
                self.next_category_id = pid + 1;
                final_parent_id = Some(pid);
            },
            None => {},
        }
        let cid = self.next_category_id;
        let child_row = Category {
            id: cid,
            parent_category_id: final_parent_id,
            name: payload.name,
            user_id,
        };
        let response_row = child_row.clone();
        proof {
            assert(!has_category_named(self.categories@, user_id, child_row.name@));
            lemma_categories_push_wf(self.categories@, self.next_category_id, child_row);
        }
        self.categories.push(child_row);
        self.next_category_id = cid + 1;
        // Read-after-write: fetch the parent for the response; a dangling
        // explicit parent id simply yields no parent in the response.
        let parent_dto = match final_parent_id {
            Some(pid) => {
                match find_category_by_id(&self.categories, pid) {
                    Some(i) => Some(
                        CategoryDto { id: self.categories[i].id, name: self.categories[i].name.clone() },
                    ),
                    None => None,
                }
            },
            None => None,
        };
        Ok(CreateCategoryResponse { category: response_row, parent: parent_dto })
    }

    /// Lists this user's categories, in insertion order.
    pub fn list_categories(&self, user_id: i32) -> (r: Vec<Category>)
        ensures
            r@ == categories_of(self.categories@, user_id),
    {
        let mut out: Vec<Category> = Vec::new();
        let mut i: usize = 0;
        proof {
            assert(self.categories@.take(0) =~= Seq::<Category>::empty());
            reveal(Seq::filter);
        }
        while i < self.categories.len()
            invariant
                0 <= i <= self.categories@.len(),
                out@ == categories_of(self.categories@.take(i as int), user_id),
            decreases self.categories@.len() - i,
        {
            proof {
                broadcast use Seq::lemma_filter_push;

                assert(self.categories@.take(i + 1) =~= self.categories@.take(i as int).push(
                    self.categories@[i as int],
                ));
            }
            if self.categories[i].user_id == user_id {
                out.push(self.categories[i].clone());
            }
            i = i + 1;
        }
        proof {
            assert(self.categories@.take(self.categories@.len() as int) =~= self.categories@);
        }
        out
    }
}

/// With names unique per user, any matching index yields the id that
/// `cat_named_id` names.
pub proof fn lemma_cat_named_id_agrees(
    cats: Seq<Category>,
    user_id: i32,
    name: Seq<char>,
    i: int,
    next: i32,
)
    requires
        categories_wf(cats, next),
        0 <= i < cats.len(),
        cats[i].user_id == user_id,
        cats[i].name@ == name,
    ensures
        cat_named_id(cats, user_id, name) == cats[i].id,
{
    let j = choose|j: int| 0 <= j < cats.len() && cats[j].user_id == user_id && cats[j].name@
        == name;
    if i != j {
        if i < j {
            assert(cats[i].name@ != cats[j].name@);
        } else {
            assert(cats[j].name@ != cats[i].name@);
        }
    }
}

} // verus!
