//! The pricing store: append-only price observations for products, held in
//! integer minor units (cents) and timestamped by the caller.

use vstd::prelude::*;
use vstd::multiset::Multiset;
use crate::products::Product;

verus! {

/// One stored price observation. `price` is in minor units; `created_at`
/// is seconds since the epoch.
#[derive(Debug)]
pub struct ProductPrice {
    pub id: i32,
    pub product_id: i32,
    pub price: i32,
    pub created_at: i64,
}

impl Clone for ProductPrice {
    fn clone(&self) -> (r: Self)
        ensures
            r == *self,
    {
        ProductPrice {
            id: self.id,
            product_id: self.product_id,
            price: self.price,
            created_at: self.created_at,
        }
    }
}

/// A price projection; `price` stays in minor units here, and the HTTP
/// boundary renders it in major units.
#[derive(Debug)]
pub struct ProductPriceDto {
    pub id: i32,
    pub product_id: i32,
    pub price: i32,
    pub created_at: i64,
}

/// The field values of a price row about to be inserted.
#[derive(Debug)]
pub struct NewProductPrice {
    pub product_id: i32,
    pub price: i32,
    pub created_at: i64,
}

/// The creation request body: the product by id or by name, the price in
/// minor units, and the observation time.
#[derive(Debug)]
pub struct ProductPricePayload {
    pub product_id: Option<i32>,
    pub product_name: Option<String>,
    pub price: i32,
    pub created_at: i64,
}

/// What price creation returns: the new observation and the resolved
/// product.
#[derive(Debug)]
pub struct CreateProductPriceResponse {
    pub product_price: ProductPriceDto,
    pub product: Product,
}

/// Whether some price observation carries this id.
pub open spec fn has_price_id(prices: Seq<ProductPrice>, id: i32) -> bool {
    exists|i: int| 0 <= i < prices.len() && prices[i].id == id
}

/// Finds the price observation with this id, if any.
pub fn find_price_by_id(prices: &Vec<ProductPrice>, id: i32) -> (r: Option<usize>)
    ensures
        match r {
            Some(i) => i < prices@.len() && prices@[i as int].id == id,
            None => !has_price_id(prices@, id),
        },
{
    let mut i: usize = 0;
    while i < prices.len()
        invariant
            0 <= i <= prices@.len(),
            forall|k: int| 0 <= k < i ==> prices@[k].id != id,
        decreases prices@.len() - i,
    {
        if prices[i].id == id {
            return Some(i);
        }
        i = i + 1;
    }
    None
}

} // verus!

verus! {

use crate::errors::ApiError;
use crate::products::{
    find_product_by_id, find_product_by_name, has_product_id, has_product_named,
    lemma_has_product_id_grow, lemma_prod_named_id_agrees, lemma_products_push_wf, prod_named_id,
};
use crate::store::{prices_wf, Store};
use crate::text::{is_blank, trim_spec};

/// Whether resolving the product reference of this payload inserts a new
/// product (a name was given, it is not blank, and the user owns no
/// product with the trimmed name).
pub open spec fn price_product_creates(
    prods: Seq<Product>,
    user_id: i32,
    p: ProductPricePayload,
) -> bool {
    p.product_id is None && match p.product_name {
        Some(n) => {
            let t = trim_spec(n@);
            t.len() > 0 && !has_product_named(prods, user_id, t)
        },
        None => false,
    }
}

/// The product id the observation ends up on; meaningful only when
/// `create_product_price_err` is `None`.
pub open spec fn price_product_id_spec(
    prods: Seq<Product>,
    user_id: i32,
    p: ProductPricePayload,
    next_prod_id: i32,
) -> i32 {
    match p.product_id {
        Some(pid) => pid,
        None => match p.product_name {
            Some(n) => {
                let t = trim_spec(n@);
                if has_product_named(prods, user_id, t) {
                    prod_named_id(prods, user_id, t)
                } else {
                    next_prod_id
                }
            },
            None => 0,
        },
    }
}

/// Which error price creation returns, if any: an explicit product id
/// must exist, and without one a non-blank product name is required.
pub open spec fn create_product_price_err(
    prods: Seq<Product>,
    user_id: i32,
    p: ProductPricePayload,
) -> Option<ApiError> {
    match p.product_id {
        Some(pid) => if !has_product_id(prods, pid) {
            Some(ApiError::NoSuchProduct)
        } else {
            None
        },
        None => match p.product_name {
            Some(n) => if is_blank(n@) {
                Some(ApiError::MissingProductReference)
            } else {
                None
            },
            None => Some(ApiError::MissingProductReference),
        },
    }
}

/// What a successful price creation did: the product resolved or created,
/// one observation appended with the caller's timestamp and minor-unit
/// price, nothing else touched, and the response echoing both.
pub open spec fn create_product_price_ok(
    s0: Store,
    s1: Store,
    user_id: i32,
    p: ProductPricePayload,
    resp: CreateProductPriceResponse,
) -> bool {
    let creates = price_product_creates(s0.products@, user_id, p);
    let rpid = price_product_id_spec(s0.products@, user_id, p, s0.next_product_id);
    &&& s0.same_but_pricing(s1)
    &&& s1.next_product_id == s0.next_product_id + (if creates {
        1int
    } else {
        0int
    })
    &&& s1.products@.len() == s0.products@.len() + (if creates {
        1int
    } else {
        0int
    })
    &&& forall|k: int| 0 <= k < s0.products@.len() ==> s1.products@[k] == s0.products@[k]
    &&& creates ==> {
        let np = s1.products@.last();
        &&& np.id == s0.next_product_id
        &&& np.user_id == user_id
        &&& np.category_id is None
        &&& match p.product_name {
            Some(n) => np.name@ == trim_spec(n@),
            None => false,
        }
    }
    &&& s1.next_product_price_id == s0.next_product_price_id + 1
    &&& s1.product_prices@.len() == s0.product_prices@.len() + 1
    &&& forall|k: int|
        0 <= k < s0.product_prices@.len() ==> s1.product_prices@[k] == s0.product_prices@[k]
    &&& {
        let np = s1.product_prices@.last();
        &&& np.id == s0.next_product_price_id
        &&& np.product_id == rpid
        &&& np.price == p.price
        &&& np.created_at == p.created_at
    }
    &&& resp.product_price.id == s0.next_product_price_id
    &&& resp.product_price.product_id == rpid
    &&& resp.product_price.price == p.price
    &&& resp.product_price.created_at == p.created_at
    &&& resp.product.id == rpid
    &&& exists|i: int| 0 <= i < s1.products@.len() && s1.products@[i] == resp.product
}

/// Appending a fresh-id observation on an existing product keeps the
/// price table well formed.
pub proof fn lemma_prices_push_wf(
    prices: Seq<ProductPrice>,
    next: i32,
    row: ProductPrice,
    prods: Seq<Product>,
)
    requires
        prices_wf(prices, next, prods),
        row.id == next,
        next < i32::MAX,
        has_product_id(prods, row.product_id),
    ensures
        prices_wf(prices.push(row), (next + 1) as i32, prods),
{
    let s = prices.push(row);
    assert(s.len() == prices.len() + 1);
    assert forall|i: int| 0 <= i < s.len() implies 0 < (#[trigger] s[i]).id < next + 1 by {
        if i < prices.len() {
            assert(s[i] == prices[i]);
            assert(0 < prices[i].id < next);
        } else {
            assert(s[i] == row);
        }
    }
    assert forall|i: int, j: int| 0 <= i < j < s.len() implies #[trigger] s[i].id
        != #[trigger] s[j].id by {
        if j == prices.len() {
            assert(s[i] == prices[i]);
            assert(s[j] == row);
        } else {
            assert(s[i] == prices[i]);
            assert(s[j] == prices[j]);
        }
    }
    assert forall|i: int| 0 <= i < s.len() implies has_product_id(
        prods,
        (#[trigger] s[i]).product_id,
    ) by {
        if i < prices.len() {
            assert(s[i] == prices[i]);
            assert(has_product_id(prods, prices[i].product_id));
        } else {
            assert(s[i] == row);
        }
    }
}

/// The minor-unit amount of the observation with this id; meaningful
/// only when one exists.
pub open spec fn price_of(prices: Seq<ProductPrice>, id: i32) -> int {
    let i = choose|i: int| 0 <= i < prices.len() && prices[i].id == id;
    prices[i].price as int
}

/// With unique ids, any matching index yields the amount that `price_of`
/// names.
pub proof fn lemma_price_of_agrees(prices: Seq<ProductPrice>, id: i32, i: int, next: i32, prods: Seq<Product>)
    requires
        prices_wf(prices, next, prods),
        0 <= i < prices.len(),
        prices[i].id == id,
    ensures
        price_of(prices, id) == prices[i].price,
{
    let j = choose|j: int| 0 <= j < prices.len() && prices[j].id == id;
    if i != j {
        if i < j {
            assert(prices[i].id != prices[j].id);
        } else {
            assert(prices[j].id != prices[i].id);
        }
    }
}

/// A price observation visible before stays visible after rows are
/// appended.
pub proof fn lemma_has_price_id_grow(prices: Seq<ProductPrice>, grown: Seq<ProductPrice>, id: i32)
    requires
        has_price_id(prices, id),
        prices.len() <= grown.len(),
        forall|k: int| 0 <= k < prices.len() ==> grown[k] == prices[k],
    ensures
        has_price_id(grown, id),
{
    let i = choose|i: int| 0 <= i < prices.len() && prices[i].id == id;
    assert(grown[i].id == id);
}

impl Store {
    /// Records one price observation: the product is resolved by id (it
    /// must exist) or by name (found or created for this user), and one
    /// observation with the caller-supplied timestamp is appended. On any
    /// error the store is left exactly as it was.
    pub fn create_product_price(&mut self, user_id: i32, payload: ProductPricePayload) -> (r:
        Result<CreateProductPriceResponse, ApiError>)
        requires
            old(self).wf(),
            old(self).next_product_id < i32::MAX,
            old(self).next_product_price_id < i32::MAX,
        ensures
            final(self).wf(),
            r matches Err(e) ==> *final(self) == *old(self) && create_product_price_err(
                old(self).products@,
                user_id,
                payload,
            ) == Some(e),
            r matches Ok(resp) ==> create_product_price_err(old(self).products@, user_id, payload)
                is None && create_product_price_ok(*old(self), *final(self), user_id, payload, resp),
    {
        let ghost s0 = *self;
        // Resolve the product; every failure is detected before any write.
        let resolved_pid: i32 = match payload.product_id {
            Some(pid) => {
                if find_product_by_id(&self.products, pid).is_none() {
                    return Err(ApiError::NoSuchProduct);
                }
                pid
            },
            None => {
                match &payload.product_name {
                    Some(pn) => {
                        let t = crate::text::trim_str(pn.as_str());
                        if t.as_str().is_empty() {
                            return Err(ApiError::MissingProductReference);
                        }
                        match find_product_by_name(&self.products, user_id, t.as_str()) {
                            Some(i) => {
                                let found = self.products[i].id;
                                proof {
                                    lemma_prod_named_id_agrees(
                                        s0.products@,
                                        user_id,
                                        t@,
                                        i as int,
                                        s0.next_product_id,
                                    );
                                }
                                found
                            },
                            None => {
                                let npid = self.next_product_id;
                                let new_prod = Product {
                                    id: npid,
                                    user_id,
                                    category_id: None,
                                    name: t,
                                };
                                proof {
                                    lemma_products_push_wf(
                                        self.products@,
                                        self.next_product_id,
                                        new_prod,
                                    );
                                }
                                self.products.push(new_prod);
                                self.next_product_id = npid + 1;
                                npid
                            },
                        }
                    },
                    None => {
                        return Err(ApiError::MissingProductReference);
                    },
                }
            },
        };
        proof {
            // Rows that referenced products before still do.
            assert forall|i: int|
                0 <= i < self.product_prices@.len() implies has_product_id(
                self.products@,
                (#[trigger] self.product_prices@[i]).product_id,
            ) by {
                lemma_has_product_id_grow(
                    s0.products@,
                    self.products@,
                    self.product_prices@[i].product_id,
                );
            }
            assert forall|i: int|
                0 <= i < self.transactions@.len() implies has_product_id(
                self.products@,
                (#[trigger] self.transactions@[i]).product_id,
            ) by {
                lemma_has_product_id_grow(
                    s0.products@,
                    self.products@,
                    self.transactions@[i].product_id,
                );
            }
            if s0.products@.len() < self.products@.len() {
                assert(self.products@.len() == s0.products@.len() + 1);
                assert(self.products@.last().id == resolved_pid);
                assert(has_product_id(self.products@, resolved_pid));
            } else {
                assert(has_product_id(s0.products@, resolved_pid));
                let i = choose|i: int|
                    0 <= i < s0.products@.len() && s0.products@[i].id == resolved_pid;
                assert(self.products@[i].id == resolved_pid);
            }
        }
        let ppid = self.next_product_price_id;
        let price_row = ProductPrice {
            id: ppid,
            product_id: resolved_pid,
            price: payload.price,
            created_at: payload.created_at,
        };
        proof {
            lemma_prices_push_wf(
                self.product_prices@,
                self.next_product_price_id,
                price_row,
                self.products@,
            );
        }
        self.product_prices.push(price_row);
        self.next_product_price_id = ppid + 1;
        proof {
            assert forall|i: int|
                0 <= i < self.transactions@.len() implies crate::product_prices::has_price_id(
                self.product_prices@,
                (#[trigger] self.transactions@[i]).product_price_id,
            ) by {
                lemma_has_price_id_grow(
                    s0.product_prices@,
                    self.product_prices@,
                    self.transactions@[i].product_price_id,
                );
            }
        }
        // Read-after-write: fetch the resolved product for the response.
        let product_row = match find_product_by_id(&self.products, resolved_pid) {
            Some(i) => self.products[i].clone(),
            None => {
                proof {
                    assert(false);
                }
                Product { id: 0, user_id: 0, category_id: None, name: String::new() }
            },
        };
        let dto = ProductPriceDto {
            id: ppid,
            product_id: resolved_pid,
            price: payload.price,
            created_at: payload.created_at,
        };
        Ok(CreateProductPriceResponse { product_price: dto, product: product_row })
    }
}


/// The price observations of one product, in table order.
pub open spec fn prices_for(prices: Seq<ProductPrice>, product_id: i32) -> Seq<ProductPrice> {
    prices.filter(|p: ProductPrice| p.product_id == product_id)
}

/// The listing projection of one stored observation.
pub open spec fn dto_of_price(p: ProductPrice) -> ProductPriceDto {
    ProductPriceDto { id: p.id, product_id: p.product_id, price: p.price, created_at: p.created_at }
}

/// Sorts price observations by their timestamp, oldest first, by
/// repeatedly moving an earliest remaining observation across: the
/// result is a permutation of the input.
fn sort_price_dtos(v: Vec<ProductPriceDto>) -> (r: Vec<ProductPriceDto>)
    ensures
        r@.len() == v@.len(),
        forall|k: int, l: int| 0 <= k < l < r@.len() ==> r@[k].created_at <= r@[l].created_at,
        r@.to_multiset() == v@.to_multiset(),
{
    broadcast use vstd::seq_lib::group_to_multiset_ensures, vstd::multiset::group_multiset_axioms;

    let mut pending = v;
    let mut out: Vec<ProductPriceDto> = Vec::new();
    proof {
        assert(out@.to_multiset() =~= Multiset::<ProductPriceDto>::empty());
        assert(out@.to_multiset().add(pending@.to_multiset()) =~= pending@.to_multiset());
    }
    while pending.len() > 0
        invariant
            out@.len() + pending@.len() == v@.len(),
            out@.to_multiset().add(pending@.to_multiset()) == v@.to_multiset(),
            forall|k: int, l: int|
                0 <= k < l < out@.len() ==> out@[k].created_at <= out@[l].created_at,
            forall|a: int, b: int|
                0 <= a < out@.len() && 0 <= b < pending@.len() ==> out@[a].created_at <= pending@[
                    b
                ].created_at,
        decreases pending@.len(),
    {
        let mut m: usize = 0;
        let mut j: usize = 1;
        while j < pending.len()
            invariant
                0 <= m < j <= pending@.len(),
                forall|b: int| 0 <= b < j ==> pending@[m as int].created_at <= pending@[b].created_at,
            decreases pending@.len() - j,
        {
            if pending[j].created_at < pending[m].created_at {
                m = j;
            }
            j = j + 1;
        }
        let ghost out_old = out@;
        let ghost pending_old = pending@;
        proof {
            pending_old.remove_ensures(m as int);
        }
        let x = pending.remove(m);
        out.push(x);
        proof {
            broadcast use vstd::seq_lib::group_to_multiset_ensures,
                vstd::multiset::group_multiset_axioms;

            assert(pending_old.contains(x)) by {
                assert(pending_old[m as int] == x);
            }
            assert(pending_old.to_multiset().count(x) > 0);
            assert(out@.to_multiset() =~= out_old.to_multiset().insert(x));
            assert(pending@.to_multiset() =~= pending_old.to_multiset().remove(x));
            assert(out@.to_multiset().add(pending@.to_multiset()) =~= out_old.to_multiset().add(
                pending_old.to_multiset(),
            ));
            assert forall|a: int, b: int|
                0 <= a < out@.len() && 0 <= b < pending@.len() implies out@[a].created_at
                <= pending@[b].created_at by {
                if b < m {
                    assert(pending@[b] == pending_old[b]);
                } else {
                    assert(pending@[b] == pending_old[b + 1]);
                }
                if a < out_old.len() {
                    assert(out@[a] == out_old[a]);
                    assert(out_old[a].created_at <= pending_old[m as int].created_at);
                } else {
                    assert(out@[a] == x);
                }
                assert(x.created_at <= pending_old[b + (if b < m { 0int } else { 1int })].created_at);
            }
        }
    }
    proof {
        assert(pending@.to_multiset() =~= Multiset::<ProductPriceDto>::empty());
        assert(out@.to_multiset().add(pending@.to_multiset()) =~= out@.to_multiset());
    }
    out
}

impl Store {
    /// Lists the price observations of one product, ordered by their
    /// caller-supplied timestamp, oldest first, as DTOs: exactly the
    /// product's rows (as a multiset), with observations sharing a
    /// timestamp in unspecified relative order. Like the store's other
    /// price reads this listing is keyed by the product alone and not
    /// scoped to a caller.
    pub fn list_product_prices(&self, product_id: i32) -> (r: Vec<ProductPriceDto>)
        ensures
            r@.len() == prices_for(self.product_prices@, product_id).len(),
            forall|k: int, l: int|
                0 <= k < l < r@.len() ==> r@[k].created_at <= r@[l].created_at,
            r@.to_multiset() == prices_for(self.product_prices@, product_id).map_values(
                |p: ProductPrice| dto_of_price(p),
            ).to_multiset(),
    {
        let mut matched: Vec<ProductPriceDto> = Vec::new();
        let mut i: usize = 0;
        proof {
            assert(self.product_prices@.take(0) =~= Seq::<ProductPrice>::empty());
            reveal(Seq::filter);
            assert(matched@ =~= prices_for(self.product_prices@.take(0), product_id).map_values(
                |p: ProductPrice| dto_of_price(p),
            ));
        }
        while i < self.product_prices.len()
            invariant
                0 <= i <= self.product_prices@.len(),
                matched@ == prices_for(self.product_prices@.take(i as int), product_id).map_values(
                    |p: ProductPrice| dto_of_price(p),
                ),
            decreases self.product_prices@.len() - i,
        {
            proof {
                broadcast use Seq::lemma_filter_push;

                assert(self.product_prices@.take(i + 1) =~= self.product_prices@.take(i as int).push(
                    self.product_prices@[i as int],
                ));
                if self.product_prices@[i as int].product_id == product_id {
                    assert(prices_for(self.product_prices@.take(i + 1), product_id).map_values(
                        |p: ProductPrice| dto_of_price(p),
                    ) =~= prices_for(self.product_prices@.take(i as int), product_id).map_values(
                        |p: ProductPrice| dto_of_price(p),
                    ).push(dto_of_price(self.product_prices@[i as int])));
                }
            }
            if self.product_prices[i].product_id == product_id {
                let row = &self.product_prices[i];
                matched.push(
                    ProductPriceDto {
                        id: row.id,
                        product_id: row.product_id,
                        price: row.price,
                        created_at: row.created_at,
                    },
                );
            }
            i = i + 1;
        }
        proof {
            assert(self.product_prices@.take(self.product_prices@.len() as int)
                =~= self.product_prices@);
        }
        sort_price_dtos(matched)
    }
}

} // verus!
