//! The product store: user-owned products, optionally classified under one
//! category, with a resolve-or-create write path.

use vstd::prelude::*;
use crate::categories::CategoryDto;

verus! {

/// One stored product. `category_id` may dangle; the store does not
/// enforce it.
#[derive(Debug)]
pub struct Product {
    pub id: i32,
    pub user_id: i32,
    pub category_id: Option<i32>,
    pub name: String,
}

impl Clone for Product {
    fn clone(&self) -> (r: Self)
        ensures
            r == *self,
    {
        Product {
            id: self.id,
            user_id: self.user_id,
            category_id: self.category_id,
            name: self.name.clone(),
        }
    }
}

/// The field values of a product row about to be inserted.
#[derive(Debug)]
pub struct NewProduct {
    pub user_id: i32,
    pub category_id: Option<i32>,
    pub name: String,
}

/// The creation request body: the category may be named by id or by name.
#[derive(Debug)]
pub struct ProductPayload {
    pub category_id: Option<i32>,
    pub category_name: Option<String>,
    pub name: String,
}

/// What product creation returns: the new row and, when one is set, the
/// resolved category.
#[derive(Debug)]
pub struct CreateProductResponse {
    pub product: Product,
    pub category: Option<CategoryDto>,
}

/// A product projection without the owner.
#[derive(Debug)]
pub struct ProductDto {
    pub id: i32,
    pub category_id: Option<i32>,
    pub name: String,
}

impl From<Product> for ProductDto {
    fn from(product: Product) -> (r: Self) {
        ProductDto { id: product.id, category_id: product.category_id, name: product.name }
    }
}

impl vstd::std_specs::convert::FromSpecImpl<Product> for ProductDto {
    open spec fn obeys_from_spec() -> bool {
        true
    }

    open spec fn from_spec(product: Product) -> Self {
        ProductDto { id: product.id, category_id: product.category_id, name: product.name }
    }
}

/// Whether the user already owns a product with exactly this name.
pub open spec fn has_product_named(prods: Seq<Product>, user_id: i32, name: Seq<char>) -> bool {
    exists|i: int| 0 <= i < prods.len() && prods[i].user_id == user_id && prods[i].name@ == name
}

/// Whether some product carries this id.
pub open spec fn has_product_id(prods: Seq<Product>, id: i32) -> bool {
    exists|i: int| 0 <= i < prods.len() && prods[i].id == id
}

/// Finds the product owned by `user_id` with exactly this name, if any.
pub fn find_product_by_name(prods: &Vec<Product>, user_id: i32, name: &str) -> (r: Option<usize>)
    ensures
        match r {
            Some(i) => i < prods@.len() && prods@[i as int].user_id == user_id && prods@[
                i as int
            ].name@ == name@,
            None => !has_product_named(prods@, user_id, name@),
        },
{
    let mut i: usize = 0;
    while i < prods.len()
        invariant
            0 <= i <= prods@.len(),
            forall|k: int|
                0 <= k < i ==> !(prods@[k].user_id == user_id && prods@[k].name@ == name@),
        decreases prods@.len() - i,
    {
        if prods[i].user_id == user_id && crate::text::str_eq(prods[i].name.as_str(), name) {
            return Some(i);
        }
        i = i + 1;
    }
    None
}

/// Finds the product with this id, if any.
pub fn find_product_by_id(prods: &Vec<Product>, id: i32) -> (r: Option<usize>)
    ensures
        match r {
            Some(i) => i < prods@.len() && prods@[i as int].id == id,
            None => !has_product_id(prods@, id),
        },
{
    let mut i: usize = 0;
    while i < prods.len()
        invariant
            0 <= i <= prods@.len(),
            forall|k: int| 0 <= k < i ==> prods@[k].id != id,
        decreases prods@.len() - i,
    {
        if prods[i].id == id {
            return Some(i);
        }
        i = i + 1;
    }
    None
}

} // verus!

verus! {

use crate::categories::{
    cat_named_id, find_category_by_id, find_category_by_name, has_category_id, has_category_named,
    lemma_cat_named_id_agrees, lemma_categories_push_wf, Category,
};
use crate::errors::ApiError;
use crate::store::{products_wf, Store};
use crate::text::{is_blank, trim_spec};

/// The products owned by one user, in insertion order.
pub open spec fn products_of(prods: Seq<Product>, user_id: i32) -> Seq<Product> {
    prods.filter(|p: Product| p.user_id == user_id)
}

/// The listing projection of one product.
pub open spec fn product_dto_of(p: Product) -> ProductDto {
    ProductDto { id: p.id, category_id: p.category_id, name: p.name }
}

/// The id of the product owned by `user_id` with this name; meaningful
/// only when one exists.
pub open spec fn prod_named_id(prods: Seq<Product>, user_id: i32, name: Seq<char>) -> i32 {
    let i = choose|i: int| 0 <= i < prods.len() && prods[i].user_id == user_id && prods[i].name@
        == name;
    prods[i].id
}

/// Whether resolving the category reference of this payload inserts a new
/// top-level category.
pub open spec fn prod_category_creates(cats: Seq<Category>, user_id: i32, p: ProductPayload) -> bool {
    p.category_id is None && match p.category_name {
        Some(n) => {
            let t = trim_spec(n@);
            t.len() > 0 && !has_category_named(cats, user_id, t)
        },
        None => false,
    }
}

/// The category id the new product ends up with: an explicit id as-is, a
/// name resolved or created, a blank or absent reference meaning none.
pub open spec fn prod_category_id_spec(
    cats: Seq<Category>,
    user_id: i32,
    p: ProductPayload,
    next_cat_id: i32,
) -> Option<i32> {
    if p.category_id is Some {
        p.category_id
    } else {
        match p.category_name {
            Some(n) => {
                let t = trim_spec(n@);
                if t.len() == 0 {
                    None
                } else if has_category_named(cats, user_id, t) {
                    Some(cat_named_id(cats, user_id, t))
                } else {
                    Some(next_cat_id)
                }
            },
            None => None,
        }
    }
}

/// Which error product creation returns, if any: a blank name is a
/// validation failure and a name the user already holds is a conflict.
pub open spec fn create_product_err(prods: Seq<Product>, user_id: i32, p: ProductPayload) -> Option<
    ApiError,
> {
    if is_blank(p.name@) {
        Some(ApiError::BlankProductName)
    } else if has_product_named(prods, user_id, p.name@) {
        Some(ApiError::DuplicateProduct)
    } else {
        None
    }
}

/// What a successful product creation did: the category resolved per
/// `prod_category_id_spec` (inserting one top-level category when it
/// created), the product appended with the next id, nothing else touched,
/// and the response echoing the committed rows.
pub open spec fn create_product_ok(
    s0: Store,
    s1: Store,
    user_id: i32,
    p: ProductPayload,
    resp: CreateProductResponse,
) -> bool {
    let cats0 = s0.categories@;
    let creates = prod_category_creates(cats0, user_id, p);
    let cid = prod_category_id_spec(cats0, user_id, p, s0.next_category_id);
    &&& s0.same_but_catalog(s1)
    &&& s1.next_category_id == s0.next_category_id + (if creates {
        1int
    } else {
        0int
    })
    &&& s1.categories@.len() == cats0.len() + (if creates {
        1int
    } else {
        0int
    })
    &&& forall|k: int| 0 <= k < cats0.len() ==> s1.categories@[k] == cats0[k]
    &&& creates ==> {
        let nc = s1.categories@.last();
        &&& nc.id == s0.next_category_id
        &&& nc.parent_category_id is None
        &&& match p.category_name {
            Some(n) => nc.name@ == trim_spec(n@),
            None => false,
        }
        &&& nc.user_id == user_id
    }
    &&& s1.next_product_id == s0.next_product_id + 1
    &&& s1.products@.len() == s0.products@.len() + 1
    &&& forall|k: int| 0 <= k < s0.products@.len() ==> s1.products@[k] == s0.products@[k]
    &&& {
        let np = s1.products@.last();
        &&& np.id == s0.next_product_id
        &&& np.user_id == user_id
        &&& np.category_id == cid
        &&& np.name@ == p.name@
    }
    &&& resp.product == s1.products@.last()
    &&& match resp.category {
        Some(dto) => cid == Some(dto.id) && exists|i: int|
            0 <= i < s1.categories@.len() && s1.categories@[i].id == dto.id && s1.categories@[
                i
            ].name@ == dto.name@,
        None => match cid {
            Some(x) => !has_category_id(s1.categories@, x),
            None => true,
        },
    }
}

/// Appending a fresh-id row whose (user, name) pair is not yet taken
/// keeps the product table well formed.
pub proof fn lemma_products_push_wf(prods: Seq<Product>, next: i32, p: Product)
    requires
        products_wf(prods, next),
        p.id == next,
        next < i32::MAX,
        !has_product_named(prods, p.user_id, p.name@),
    ensures
        products_wf(prods.push(p), (next + 1) as i32),
{
    let s = prods.push(p);
    assert(s.len() == prods.len() + 1);
    assert forall|i: int| 0 <= i < s.len() implies 0 < (#[trigger] s[i]).id < next + 1 by {
        if i < prods.len() {
            assert(s[i] == prods[i]);
            assert(0 < prods[i].id < next);
        } else {
            assert(s[i] == p);
        }
    }
    assert forall|i: int, j: int| 0 <= i < j < s.len() implies #[trigger] s[i].id
        != #[trigger] s[j].id by {
        if j == prods.len() {
            assert(s[i] == prods[i]);
            assert(s[j] == p);
        } else {
            assert(s[i] == prods[i]);
            assert(s[j] == prods[j]);
        }
    }
    assert forall|i: int, j: int|
        0 <= i < j < s.len() && #[trigger] s[i].user_id == #[trigger] s[j].user_id implies s[
        i
    ].name@ != s[j].name@ by {
        if j == prods.len() {
            assert(s[i] == prods[i]);
            assert(s[j] == p);
            assert(!(prods[i].user_id == p.user_id && prods[i].name@ == p.name@));
        } else {
            assert(s[i] == prods[i]);
            assert(s[j] == prods[j]);
        }
    }
}

/// With names unique per user, any matching index yields the id that
/// `prod_named_id` names.
pub proof fn lemma_prod_named_id_agrees(
    prods: Seq<Product>,
    user_id: i32,
    name: Seq<char>,
    i: int,
    next: i32,
)
    requires
        products_wf(prods, next),
        0 <= i < prods.len(),
        prods[i].user_id == user_id,
        prods[i].name@ == name,
    ensures
        prod_named_id(prods, user_id, name) == prods[i].id,
{
    let j = choose|j: int| 0 <= j < prods.len() && prods[j].user_id == user_id && prods[j].name@
        == name;
    if i != j {
        if i < j {
            assert(prods[i].name@ != prods[j].name@);
        } else {
            assert(prods[j].name@ != prods[i].name@);
        }
    }
}

/// The product row with this id; meaningful only when one exists.
pub open spec fn product_of(prods: Seq<Product>, id: i32) -> Product {
    let i = choose|i: int| 0 <= i < prods.len() && prods[i].id == id;
    prods[i]
}

/// With unique ids, any matching index yields the row that `product_of`
/// names.
pub proof fn lemma_product_of_agrees(prods: Seq<Product>, id: i32, i: int, next: i32)
    requires
        products_wf(prods, next),
        0 <= i < prods.len(),
        prods[i].id == id,
    ensures
        product_of(prods, id) == prods[i],
{
    let j = choose|j: int| 0 <= j < prods.len() && prods[j].id == id;
    if i != j {
        if i < j {
            assert(prods[i].id != prods[j].id);
        } else {
            assert(prods[j].id != prods[i].id);
        }
    }
}

/// A product visible before stays visible after rows are appended.
pub proof fn lemma_has_product_id_grow(prods: Seq<Product>, grown: Seq<Product>, id: i32)
    requires
        has_product_id(prods, id),
        prods.len() <= grown.len(),
        forall|k: int| 0 <= k < prods.len() ==> grown[k] == prods[k],
    ensures
        has_product_id(grown, id),
{
    let i = choose|i: int| 0 <= i < prods.len() && prods[i].id == id;
    assert(grown[i].id == id);
}

impl Store {
    /// Creates a product for this user, resolving the category reference
    /// first: an explicit category id is taken as-is, a category name is
    /// looked up and created as a new top-level category when absent, and
    /// a blank one means no category. A blank product name is rejected,
    /// and a name the user already holds is a conflict; on any error the
    /// store is left exactly as it was.
    pub fn create_product(&mut self, user_id: i32, payload: ProductPayload) -> (r: Result<
        CreateProductResponse,
        ApiError,
    >)
        requires
            old(self).wf(),
            old(self).next_category_id < i32::MAX,
            old(self).next_product_id < i32::MAX,
        ensures
            final(self).wf(),
            r matches Err(e) ==> *final(self) == *old(self) && create_product_err(
                old(self).products@,
                user_id,
                payload,
            ) == Some(e),
            r matches Ok(resp) ==> create_product_err(old(self).products@, user_id, payload)
                is None && create_product_ok(*old(self), *final(self), user_id, payload, resp),
    {
        let ghost s0 = *self;
        let ghost cats0 = self.categories@;
        if crate::text::is_blank_str(payload.name.as_str()) {
            return Err(ApiError::BlankProductName);
        }
        if find_product_by_name(&self.products, user_id, payload.name.as_str()).is_some() {
            return Err(ApiError::DuplicateProduct);
        }
        // Resolve the category reference; this is the only write that can
        // precede the product insert, and no check after it can fail.
        let mut category_id: Option<i32> = None;
        match payload.category_id {
            Some(cid) => {
                category_id = Some(cid);
            },
            None => {
                match &payload.category_name {
                    Some(cn) => {
                        let t = crate::text::trim_str(cn.as_str());
                        if !t.as_str().is_empty() {
                            match find_category_by_name(&self.categories, user_id, t.as_str()) {
                                Some(i) => {
                                    category_id = Some(self.categories[i].id);
                                    proof {
                                        lemma_cat_named_id_agrees(
                                            cats0,
                                            user_id,
                                            t@,
                                            i as int,
                                            s0.next_category_id,
                                        );
                                    }
                                },
                                None => {
                                    let ncid = self.next_category_id;
                                    let new_cat = Category {
                                        id: ncid,
                                        parent_category_id: None,
                                        name: t,
                                        user_id,
                                    };
                                    proof {
                                        lemma_categories_push_wf(
                                            self.categories@,
                                            self.next_category_id,
                                            new_cat,
                                        );
                                    }
                                    self.categories.push(new_cat);
                                    self.next_category_id = ncid + 1;
                                    category_id = Some(ncid);
                                },
                            }
                        }
                    },
                    None => {},
                }
            },
        }
        let pid = self.next_product_id;
        let product_row = Product { id: pid, user_id, category_id, name: payload.name };
        let response_row = product_row.clone();
        proof {
            assert(!has_product_named(self.products@, user_id, product_row.name@));
            lemma_products_push_wf(self.products@, self.next_product_id, product_row);
        }
        self.products.push(product_row);
        self.next_product_id = pid + 1;
        proof {
            assert forall|i: int|
                0 <= i < self.product_prices@.len() implies has_product_id(
                self.products@,
                (#[trigger] self.product_prices@[i]).product_id,
            ) by {
                lemma_has_product_id_grow(
                    s0.products@,
                    self.products@,
                    self.product_prices@[i].product_id,
                );
            }
            assert forall|i: int|
                0 <= i < self.transactions@.len() implies has_product_id(
                self.products@,
                (#[trigger] self.transactions@[i]).product_id,
            ) by {
                lemma_has_product_id_grow(
                    s0.products@,
                    self.products@,
                    self.transactions@[i].product_id,
                );
            }
        }
        // Read-after-write: fetch the category for the response; a
        // dangling explicit category id yields no category in it.
        let category_dto = match category_id {
            Some(cid) => {
                match find_category_by_id(&self.categories, cid) {
                    Some(i) => Some(
                        CategoryDto { id: self.categories[i].id, name: self.categories[i].name.clone() },
                    ),
                    None => None,
                }
            },
            None => None,
        };
        Ok(CreateProductResponse { product: response_row, category: category_dto })
    }

    /// Lists this user's products, in insertion order, as DTOs.
    pub fn list_products(&self, user_id: i32) -> (r: Vec<ProductDto>)
        ensures
            r@ == products_of(self.products@, user_id).map_values(|p: Product| product_dto_of(p)),
    {
        let mut out: Vec<ProductDto> = Vec::new();
        let mut i: usize = 0;
        proof {
            assert(self.products@.take(0) =~= Seq::<Product>::empty());
            reveal(Seq::filter);
            assert(out@ =~= products_of(self.products@.take(0), user_id).map_values(
                |p: Product| product_dto_of(p),
            ));
        }
        while i < self.products.len()
            invariant
                0 <= i <= self.products@.len(),
                out@ == products_of(self.products@.take(i as int), user_id).map_values(
                    |p: Product| product_dto_of(p),
                ),
            decreases self.products@.len() - i,
        {
            proof {
                broadcast use Seq::lemma_filter_push;

                assert(self.products@.take(i + 1) =~= self.products@.take(i as int).push(
                    self.products@[i as int],
                ));
                if self.products@[i as int].user_id == user_id {
                    assert(products_of(self.products@.take(i + 1), user_id).map_values(
                        |p: Product| product_dto_of(p),
                    ) =~= products_of(self.products@.take(i as int), user_id).map_values(
                        |p: Product| product_dto_of(p),
                    ).push(product_dto_of(self.products@[i as int])));
                }
            }
            if self.products[i].user_id == user_id {
                let row = self.products[i].clone();
                out.push(ProductDto::from(row));
            }
            i = i + 1;
        }
        proof {
            assert(self.products@.take(self.products@.len() as int) =~= self.products@);
        }
        out
    }
}

} // verus!
