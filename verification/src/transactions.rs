//! The transaction store: the composite write path that resolves or
//! creates a product, a price and any referenced tags, links them, and the
//! listing that joins tags back on.

use vstd::prelude::*;
use crate::product_prices::ProductPriceDto;
use crate::products::Product;
use crate::tags::{TagDto, TagReference};

verus! {

/// Whether money flowed in or out.
#[derive(Clone, Copy, Debug, PartialEq, Eq, Structural)]
pub enum TransactionType {
    Expense,
    Income,
}

impl TransactionType {
    /// The textual form the relational store keeps.
    pub fn as_db_text(&self) -> (r: &'static str)
        ensures
            r@ == self.db_text_spec(),
    {
        match self {
            TransactionType::Expense => "expense",
            TransactionType::Income => "income",
        }
    }

    /// The stored text of each variant.
    pub open spec fn db_text_spec(&self) -> Seq<char> {
        match self {
            TransactionType::Expense => "expense"@,
            TransactionType::Income => "income"@,
        }
    }

    /// Parses the stored textual form back; anything else is rejected.
    pub fn from_db_text(s: &str) -> (r: Option<TransactionType>)
        ensures
            s@ == TransactionType::Expense.db_text_spec() ==> r == Some(TransactionType::Expense),
            s@ == TransactionType::Income.db_text_spec() ==> r == Some(TransactionType::Income),
            r matches Some(t) ==> s@ == t.db_text_spec(),
    {
        proof {
            reveal_strlit("expense");
            reveal_strlit("income");
            assert("expense"@.len() == 7);
            assert("income"@.len() == 6);
            assert("expense"@ != "income"@);
        }
        if crate::text::str_eq(s, "expense") {
            Some(TransactionType::Expense)
        } else if crate::text::str_eq(s, "income") {
            Some(TransactionType::Income)
        } else {
            None
        }
    }
}

/// One stored transaction. `date` is seconds since the epoch.
#[derive(Debug)]
pub struct Transaction {
    pub id: i32,
    pub user_id: i32,
    pub product_id: i32,
    pub product_price_id: i32,
    pub transaction_type: TransactionType,
    pub description: Option<String>,
    pub date: i64,
}

impl Clone for Transaction {
    fn clone(&self) -> (r: Self)
        ensures
            r == *self,
    {
        Transaction {
            id: self.id,
            user_id: self.user_id,
            product_id: self.product_id,
            product_price_id: self.product_price_id,
            transaction_type: self.transaction_type,
            description: match &self.description {
                Some(d) => Some(d.clone()),
                None => None,
            },
            date: self.date,
        }
    }
}

/// The field values of a transaction row about to be inserted.
#[derive(Debug)]
pub struct NewTransaction {
    pub user_id: i32,
    pub product_id: i32,
    pub product_price_id: i32,
    pub transaction_type: TransactionType,
    pub description: Option<String>,
    pub date: i64,
}

/// One row of the many-to-many join between transactions and tags. The
/// pair is the key: no transaction holds the same tag twice.
#[derive(Clone, Copy, Debug, PartialEq, Eq, Structural)]
pub struct TransactionTag {
    pub transaction_id: i32,
    pub tag_id: i32,
}

/// The creation request body. The product comes by id or by name, the
/// price by id or as an amount in minor units, and each tag by id or by
/// name.
#[derive(Debug)]
pub struct TransactionPayload {
    pub product_id: Option<i32>,
    pub product_name: Option<String>,
    pub product_price_id: Option<i32>,
    pub price: Option<i32>,
    pub transaction_type: TransactionType,
    pub description: Option<String>,
    pub date: i64,
    pub tags: Option<Vec<TagReference>>,
}

/// What transaction creation returns: everything the atomic unit of work
/// committed, read back in one piece.
#[derive(Debug)]
pub struct CreateTransactionResponse {
    pub transaction: Transaction,
    pub product: Product,
    pub product_price: ProductPriceDto,
    pub tags: Vec<TagDto>,
}

/// A listing projection: the transaction row plus the ids of its tags.
#[derive(Debug)]
pub struct TransactionDto {
    pub id: i32,
    pub user_id: i32,
    pub product_id: i32,
    pub product_price_id: i32,
    pub transaction_type: TransactionType,
    pub description: Option<String>,
    pub date: i64,
    pub tags: Vec<i32>,
}

/// Whether some transaction carries this id.
pub open spec fn has_transaction_id(txs: Seq<Transaction>, id: i32) -> bool {
    exists|i: int| 0 <= i < txs.len() && txs[i].id == id
}

} // verus!

verus! {

use crate::errors::ApiError;
use crate::product_prices::{
    find_price_by_id, has_price_id, lemma_has_price_id_grow, lemma_prices_push_wf, ProductPrice,
};
use crate::products::{
    find_product_by_id, find_product_by_name, has_product_id, has_product_named,
    lemma_has_product_id_grow, lemma_prod_named_id_agrees, lemma_products_push_wf, prod_named_id,
};
use crate::store::{transactions_wf, Store};
use crate::tags::{
    find_tag_by_id, find_tag_by_name, has_tag_id, has_tag_named, lemma_has_tag_id_grow,
    lemma_tag_named_id_agrees, lemma_tags_push_wf, tag_named_id, Tag,
};
use crate::text::{is_blank, trim_spec};

/// Whether resolving the product reference of this payload inserts a new
/// product.
pub open spec fn tx_product_creates(prods: Seq<Product>, user_id: i32, p: TransactionPayload) -> bool {
    p.product_id is None && match p.product_name {
        Some(n) => {
            let t = trim_spec(n@);
            t.len() > 0 && !has_product_named(prods, user_id, t)
        },
        None => false,
    }
}

/// The product id the transaction ends up on; meaningful only when the
/// product step yields no error.
pub open spec fn tx_product_id_spec(
    prods: Seq<Product>,
    user_id: i32,
    p: TransactionPayload,
    next_prod_id: i32,
) -> i32 {
    match p.product_id {
        Some(pid) => pid,
        None => match p.product_name {
            Some(n) => {
                let t = trim_spec(n@);
                if has_product_named(prods, user_id, t) {
                    prod_named_id(prods, user_id, t)
                } else {
                    next_prod_id
                }
            },
            None => 0,
        },
    }
}

/// Which error the product step yields, if any.
pub open spec fn tx_product_err(prods: Seq<Product>, user_id: i32, p: TransactionPayload) -> Option<
    ApiError,
> {
    match p.product_id {
        Some(pid) => if !has_product_id(prods, pid) {
            Some(ApiError::NoSuchProduct)
        } else {
            None
        },
        None => match p.product_name {
            Some(n) => if is_blank(n@) {
                Some(ApiError::MissingProductReference)
            } else {
                None
            },
            None => Some(ApiError::MissingProductReference),
        },
    }
}

/// Which error the price step yields, if any: an explicit price id must
/// exist; without one a new observation is always recorded.
pub open spec fn tx_price_err(prices: Seq<ProductPrice>, p: TransactionPayload) -> Option<ApiError> {
    match p.product_price_id {
        Some(ppid) => if !has_price_id(prices, ppid) {
            Some(ApiError::NoSuchProductPrice)
        } else {
            None
        },
        None => None,
    }
}

/// The price id the transaction ends up on.
pub open spec fn tx_price_id_spec(p: TransactionPayload, next_price_id: i32) -> i32 {
    match p.product_price_id {
        Some(ppid) => ppid,
        None => next_price_id,
    }
}

/// The minor-unit amount a newly recorded observation carries: the given
/// price, or zero when none was supplied.
pub open spec fn tx_price_amount(p: TransactionPayload) -> i32 {
    match p.price {
        Some(c) => c,
        None => 0,
    }
}

/// The tag references of the payload, empty when none were given.
pub open spec fn tx_tag_refs(p: TransactionPayload) -> Seq<TagReference> {
    match p.tags {
        Some(v) => v@,
        None => Seq::empty(),
    }
}

/// Resolves the tag references from position `i` on against the tag table
/// `tags`, creating missing named tags with ids from `next` up: the final
/// tag table and the resolved ids, or `None` when a tag id reference does
/// not exist.
pub open spec fn resolve_tags_from(
    tags: Seq<Tag>,
    user_id: i32,
    refs: Seq<TagReference>,
    i: int,
    next: i32,
) -> Option<(Seq<Tag>, Seq<i32>)>
    decreases refs.len() - i,
{
    if i < 0 || i >= refs.len() {
        Some((tags, Seq::empty()))
    } else {
        match refs[i] {
            TagReference::Id(t) => {
                if has_tag_id(tags, t) {
                    match resolve_tags_from(tags, user_id, refs, i + 1, next) {
                        Some(pr) => Some((pr.0, seq![t] + pr.1)),
                        None => None,
                    }
                } else {
                    None
                }
            },
            TagReference::Name(n) => {
                if has_tag_named(tags, user_id, n@) {
                    let t = tag_named_id(tags, user_id, n@);
                    match resolve_tags_from(tags, user_id, refs, i + 1, next) {
                        Some(pr) => Some((pr.0, seq![t] + pr.1)),
                        None => None,
                    }
                } else {
                    let fresh = Tag { id: next, name: n, user_id };
                    match resolve_tags_from(tags.push(fresh), user_id, refs, i + 1, (next + 1) as i32) {
                        Some(pr) => Some((pr.0, seq![next] + pr.1)),
                        None => None,
                    }
                }
            },
        }
    }
}

/// No id occurs twice.
pub open spec fn distinct_i32s(ids: Seq<i32>) -> bool {
    forall|k: int, l: int| 0 <= k < l < ids.len() ==> ids[k] != ids[l]
}

/// One join row.
pub open spec fn join_row(transaction_id: i32, tag_id: i32) -> TransactionTag {
    TransactionTag { transaction_id, tag_id }
}

/// The join rows linking one transaction to these tags, in order.
pub open spec fn join_rows_of(transaction_id: i32, ids: Seq<i32>) -> Seq<TransactionTag> {
    ids.map_values(|t: i32| join_row(transaction_id, t))
}

/// Which error transaction creation returns, if any, checked in the order
/// the engine runs its steps: product, price, tag resolution, duplicate
/// tag references.
pub open spec fn create_transaction_err(s: Store, user_id: i32, p: TransactionPayload) -> Option<
    ApiError,
> {
    if tx_product_err(s.products@, user_id, p) is Some {
        tx_product_err(s.products@, user_id, p)
    } else if tx_price_err(s.product_prices@, p) is Some {
        tx_price_err(s.product_prices@, p)
    } else {
        match resolve_tags_from(s.tags@, user_id, tx_tag_refs(p), 0, s.next_tag_id) {
            None => Some(ApiError::NoSuchTag),
            Some(pr) => if !distinct_i32s(pr.1) {
                Some(ApiError::DuplicateTransactionTag)
            } else {
                None
            },
        }
    }
}

/// The product table after a successful creation: grown by the created
/// product, when the payload named a new one.
pub open spec fn tx_products_after(s0: Store, s1: Store, user_id: i32, p: TransactionPayload) -> bool {
    let pcreates = tx_product_creates(s0.products@, user_id, p);
    &&& s1.next_product_id == s0.next_product_id + (if pcreates {
        1int
    } else {
        0int
    })
    &&& s1.products@.len() == s0.products@.len() + (if pcreates {
        1int
    } else {
        0int
    })
    &&& forall|k: int| 0 <= k < s0.products@.len() ==> s1.products@[k] == s0.products@[k]
    &&& pcreates ==> {
        let np = s1.products@.last();
        &&& np.id == s0.next_product_id
        &&& np.user_id == user_id
        &&& np.category_id is None
        &&& match p.product_name {
            Some(n) => np.name@ == trim_spec(n@),
            None => false,
        }
    }
}

/// The price table after a successful creation: grown by one observation
/// dated like the transaction, unless an existing price was referenced.
pub open spec fn tx_prices_after(s0: Store, s1: Store, user_id: i32, p: TransactionPayload) -> bool {
    let prcreates = p.product_price_id is None;
    let rpid = tx_product_id_spec(s0.products@, user_id, p, s0.next_product_id);
    &&& s1.next_product_price_id == s0.next_product_price_id + (if prcreates {
        1int
    } else {
        0int
    })
    &&& s1.product_prices@.len() == s0.product_prices@.len() + (if prcreates {
        1int
    } else {
        0int
    })
    &&& forall|k: int|
        0 <= k < s0.product_prices@.len() ==> s1.product_prices@[k] == s0.product_prices@[k]
    &&& prcreates ==> {
        let np = s1.product_prices@.last();
        &&& np.id == s0.next_product_price_id
        &&& np.product_id == rpid
        &&& np.price == tx_price_amount(p)
        &&& np.created_at == p.date
    }
}

/// The transaction table after a successful creation: exactly one new
/// row, carrying the resolved product and price.
pub open spec fn tx_row_after(s0: Store, s1: Store, user_id: i32, p: TransactionPayload) -> bool {
    let rpid = tx_product_id_spec(s0.products@, user_id, p, s0.next_product_id);
    let rppid = tx_price_id_spec(p, s0.next_product_price_id);
    &&& s1.next_transaction_id == s0.next_transaction_id + 1
    &&& s1.transactions@.len() == s0.transactions@.len() + 1
    &&& forall|k: int| 0 <= k < s0.transactions@.len() ==> s1.transactions@[k] == s0.transactions@[k]
    &&& {
        let tx = s1.transactions@.last();
        &&& tx.id == s0.next_transaction_id
        &&& tx.user_id == user_id
        &&& tx.product_id == rpid
        &&& tx.product_price_id == rppid
        &&& tx.transaction_type == p.transaction_type
        &&& tx.description == p.description
        &&& tx.date == p.date
    }
}

/// The response's tag list echoes the resolved tags: one entry per
/// resolved id, in order, each carrying the name the tag table holds.
pub open spec fn tags_echo(resp_tags: Seq<TagDto>, tag_ids: Seq<i32>, tags: Seq<Tag>) -> bool {
    &&& resp_tags.len() == tag_ids.len()
    &&& forall|k: int|
        0 <= k < tag_ids.len() ==> (#[trigger] resp_tags[k]).id == tag_ids[k] && exists|i: int|
            0 <= i < tags.len() && tags[i].id == tag_ids[k] && tags[i].name@ == resp_tags[k].name@
}

/// The tag and join tables after a successful creation: the tag table is
/// what resolution produced, and one join row links the new transaction
/// to each resolved tag, in payload order; the response tags echo them.
pub open spec fn tx_tags_after(
    s0: Store,
    s1: Store,
    user_id: i32,
    p: TransactionPayload,
    resp: CreateTransactionResponse,
) -> bool {
    let txid = s0.next_transaction_id;
    let resolved = resolve_tags_from(s0.tags@, user_id, tx_tag_refs(p), 0, s0.next_tag_id);
    resolved matches Some(pr) && {
        let new_tags = pr.0;
        let tag_ids = pr.1;
        &&& s1.tags@ == new_tags
        &&& s1.next_tag_id == s0.next_tag_id + (new_tags.len() - s0.tags@.len())
        &&& s1.transaction_tags@ == s0.transaction_tags@ + join_rows_of(txid, tag_ids)
        &&& tags_echo(resp.tags@, tag_ids, s1.tags@)
    }
}

/// The read-after-write response of a successful creation: the committed
/// transaction, product and price rows, read back from the final store.
pub open spec fn tx_response_after(
    s0: Store,
    s1: Store,
    user_id: i32,
    p: TransactionPayload,
    resp: CreateTransactionResponse,
) -> bool {
    let rpid = tx_product_id_spec(s0.products@, user_id, p, s0.next_product_id);
    let rppid = tx_price_id_spec(p, s0.next_product_price_id);
    &&& resp.transaction == s1.transactions@.last()
    &&& resp.product.id == rpid
    &&& exists|i: int| 0 <= i < s1.products@.len() && s1.products@[i] == resp.product
    &&& resp.product_price.id == rppid
    &&& exists|i: int|
        0 <= i < s1.product_prices@.len() && (#[trigger] s1.product_prices@[i]).id == rppid
            && resp.product_price.product_id == s1.product_prices@[i].product_id
            && resp.product_price.price == s1.product_prices@[i].price
            && resp.product_price.created_at == s1.product_prices@[i].created_at
}

/// What a successful transaction creation did, as one atomic unit: the
/// product resolved or created, the price resolved or recorded with the
/// transaction's date, the transaction row inserted, the tags resolved or
/// created and one join row linked per resolved tag, and the response
/// reading back exactly what was committed.
pub open spec fn create_transaction_ok(
    s0: Store,
    s1: Store,
    user_id: i32,
    p: TransactionPayload,
    resp: CreateTransactionResponse,
) -> bool {
    &&& s0.same_users(s1)
    &&& s1.categories@ == s0.categories@
    &&& s1.next_category_id == s0.next_category_id
    &&& tx_products_after(s0, s1, user_id, p)
    &&& tx_prices_after(s0, s1, user_id, p)
    &&& tx_row_after(s0, s1, user_id, p)
    &&& tx_tags_after(s0, s1, user_id, p, resp)
    &&& tx_response_after(s0, s1, user_id, p, resp)
}

/// A tag id is visible in a concatenation exactly when it is visible in
/// one of the parts.
pub proof fn lemma_has_tag_id_concat(a: Seq<Tag>, b: Seq<Tag>, id: i32)
    ensures
        has_tag_id(a + b, id) <==> (has_tag_id(a, id) || has_tag_id(b, id)),
{
    let c = a + b;
    if has_tag_id(a, id) {
        let i = choose|i: int| 0 <= i < a.len() && a[i].id == id;
        assert(c[i] == a[i]);
        assert(has_tag_id(c, id));
    }
    if has_tag_id(b, id) {
        let i = choose|i: int| 0 <= i < b.len() && b[i].id == id;
        assert(c[a.len() + i] == b[i]);
        assert(has_tag_id(c, id));
    }
    if has_tag_id(c, id) {
        let i = choose|i: int| 0 <= i < c.len() && c[i].id == id;
        if i < a.len() {
            assert(a[i] == c[i]);
            assert(has_tag_id(a, id));
        } else {
            assert(b[i - a.len()] == c[i]);
            assert(has_tag_id(b, id));
        }
    }
}

/// A (user, name) pair is visible in a concatenation exactly when it is
/// visible in one of the parts.
pub proof fn lemma_has_tag_named_concat(a: Seq<Tag>, b: Seq<Tag>, user_id: i32, name: Seq<char>)
    ensures
        has_tag_named(a + b, user_id, name) <==> (has_tag_named(a, user_id, name) || has_tag_named(
            b,
            user_id,
            name,
        )),
{
    let c = a + b;
    if has_tag_named(a, user_id, name) {
        let i = choose|i: int| 0 <= i < a.len() && a[i].user_id == user_id && a[i].name@ == name;
        assert(c[i] == a[i]);
        assert(has_tag_named(c, user_id, name));
    }
    if has_tag_named(b, user_id, name) {
        let i = choose|i: int| 0 <= i < b.len() && b[i].user_id == user_id && b[i].name@ == name;
        assert(c[a.len() + i] == b[i]);
        assert(has_tag_named(c, user_id, name));
    }
    if has_tag_named(c, user_id, name) {
        let i = choose|i: int| 0 <= i < c.len() && c[i].user_id == user_id && c[i].name@ == name;
        if i < a.len() {
            assert(a[i] == c[i]);
            assert(has_tag_named(a, user_id, name));
        } else {
            assert(b[i - a.len()] == c[i]);
            assert(has_tag_named(b, user_id, name));
        }
    }
}

/// A transaction visible before stays visible after rows are appended.
pub proof fn lemma_has_transaction_id_grow(txs: Seq<Transaction>, grown: Seq<Transaction>, id: i32)
    requires
        has_transaction_id(txs, id),
        txs.len() <= grown.len(),
        forall|k: int| 0 <= k < txs.len() ==> grown[k] == txs[k],
    ensures
        has_transaction_id(grown, id),
{
    let i = choose|i: int| 0 <= i < txs.len() && txs[i].id == id;
    assert(grown[i].id == id);
}

/// Appending a fresh-id row whose product and price exist keeps the
/// transaction table well formed.
pub proof fn lemma_transactions_push_wf(
    txs: Seq<Transaction>,
    next: i32,
    row: Transaction,
    prods: Seq<Product>,
    prices: Seq<ProductPrice>,
)
    requires
        transactions_wf(txs, next, prods, prices),
        row.id == next,
        next < i32::MAX,
        has_product_id(prods, row.product_id),
        has_price_id(prices, row.product_price_id),
    ensures
        transactions_wf(txs.push(row), (next + 1) as i32, prods, prices),
{
    let s = txs.push(row);
    assert(s.len() == txs.len() + 1);
    assert forall|i: int| 0 <= i < s.len() implies 0 < (#[trigger] s[i]).id < next + 1 by {
        if i < txs.len() {
            assert(s[i] == txs[i]);
            assert(0 < txs[i].id < next);
        } else {
            assert(s[i] == row);
        }
    }
    assert forall|i: int, j: int| 0 <= i < j < s.len() implies #[trigger] s[i].id
        != #[trigger] s[j].id by {
        if j == txs.len() {
            assert(s[i] == txs[i]);
            assert(s[j] == row);
        } else {
            assert(s[i] == txs[i]);
            assert(s[j] == txs[j]);
        }
    }
    assert forall|i: int| 0 <= i < s.len() implies has_product_id(
        prods,
        (#[trigger] s[i]).product_id,
    ) by {
        if i < txs.len() {
            assert(s[i] == txs[i]);
            assert(has_product_id(prods, txs[i].product_id));
        } else {
            assert(s[i] == row);
        }
    }
    assert forall|i: int| 0 <= i < s.len() implies has_price_id(
        prices,
        (#[trigger] s[i]).product_price_id,
    ) by {
        if i < txs.len() {
            assert(s[i] == txs[i]);
            assert(has_price_id(prices, txs[i].product_price_id));
        } else {
            assert(s[i] == row);
        }
    }
}

/// Whether any id occurs twice, by pairwise scan.
pub fn distinct_check(ids: &Vec<i32>) -> (b: bool)
    ensures
        b == distinct_i32s(ids@),
{
    let mut k: usize = 0;
    while k < ids.len()
        invariant
            0 <= k <= ids@.len(),
            forall|x: int, y: int| 0 <= x < y < ids@.len() && y < k ==> ids@[x] != ids@[y],
        decreases ids@.len() - k,
    {
        let mut j: usize = 0;
        while j < k
            invariant
                0 <= j <= k < ids@.len(),
                forall|x: int| 0 <= x < j ==> ids@[x] != ids@[k as int],
            decreases k - j,
        {
            if ids[j] == ids[k] {
                return false;
            }
            j = j + 1;
        }
        k = k + 1;
    }
    true
}

impl Store {
    /// The composite write path, one atomic unit: resolves or creates the
    /// product, resolves the price or records a new observation dated like
    /// the transaction, inserts the transaction row, resolves or creates
    /// every referenced tag and links one join row per tag, then reads the
    /// committed rows back into the response. Every failure is detected
    /// before the first write, so an error leaves the store exactly as it
    /// was.
    #[verifier::rlimit(100)]
    pub fn create_transaction(&mut self, user_id: i32, payload: TransactionPayload) -> (r: Result<
        CreateTransactionResponse,
        ApiError,
    >)
        requires
            old(self).wf(),
            old(self).next_product_id < i32::MAX,
            old(self).next_product_price_id < i32::MAX,
            old(self).next_transaction_id < i32::MAX,
            old(self).next_tag_id + tx_tag_refs(payload).len() <= i32::MAX,
        ensures
            final(self).wf(),
            r matches Err(e) ==> *final(self) == *old(self) && create_transaction_err(
                *old(self),
                user_id,
                payload,
            ) == Some(e),
            r matches Ok(resp) ==> create_transaction_err(*old(self), user_id, payload) is None
                && create_transaction_ok(*old(self), *final(self), user_id, payload, resp),
    {
        let ghost s0 = *self;
        let ghost refs = tx_tag_refs(payload);
        let ghost tags0 = self.tags@;
        let ghost next0 = self.next_tag_id;
        // Step 1: resolve the product against the untouched table.
        let mut product_found_id: Option<i32> = None;
        let mut product_to_create: Option<String> = None;
        match payload.product_id {
            Some(pid) => {
                if find_product_by_id(&self.products, pid).is_none() {
                    return Err(ApiError::NoSuchProduct);
                }
                product_found_id = Some(pid);
            },
            None => {
                match &payload.product_name {
                    Some(pn) => {
                        let t = crate::text::trim_str(pn.as_str());
                        if t.as_str().is_empty() {
                            return Err(ApiError::MissingProductReference);
                        }
                        match find_product_by_name(&self.products, user_id, t.as_str()) {
                            Some(i) => {
                                product_found_id = Some(self.products[i].id);
                                proof {
                                    lemma_prod_named_id_agrees(
                                        s0.products@,
                                        user_id,
                                        t@,
                                        i as int,
                                        s0.next_product_id,
                                    );
                                }
                            },
                            None => {
                                product_to_create = Some(t);
                            },
                        }
                    },
                    None => {
                        return Err(ApiError::MissingProductReference);
                    },
                }
            },
        }
        let ghost rpid_spec = tx_product_id_spec(s0.products@, user_id, payload, s0.next_product_id);
        proof {
            assert(tx_product_err(s0.products@, user_id, payload) is None);
        }
        // Step 2: an explicit price reference must exist.
        match payload.product_price_id {
            Some(ppid) => {
                if find_price_by_id(&self.product_prices, ppid).is_none() {
                    return Err(ApiError::NoSuchProductPrice);
                }
            },
            None => {},
        }
        proof {
            assert(tx_price_err(s0.product_prices@, payload) is None);
        }
        // Step 3: resolve the tags, collecting the rows still to create.
        let mut new_tags: Vec<Tag> = Vec::new();
        let mut resolved_ids: Vec<i32> = Vec::new();
        match &payload.tags {
            Some(tag_refs) => {
                proof {
                    assert(tags0 + new_tags@ =~= tags0);
                }
                let mut i: usize = 0;
                while i < tag_refs.len()
                    invariant
                        0 <= i <= tag_refs@.len(),
                        *self == s0,
                        s0.wf(),
                        payload.tags matches Some(v) && v@ == tag_refs@,
                        refs == tag_refs@,
                        tags0 == s0.tags@,
                        next0 == s0.next_tag_id,
                        next0 + refs.len() <= i32::MAX,
                        tx_product_err(s0.products@, user_id, payload) is None,
                        tx_price_err(s0.product_prices@, payload) is None,
                        new_tags@.len() <= i,
                        forall|j: int|
                            0 <= j < new_tags@.len() ==> (#[trigger] new_tags@[j]).id == next0 + j
                                && new_tags@[j].user_id == user_id,
                        crate::store::tags_wf(
                            tags0 + new_tags@,
                            (next0 + new_tags@.len()) as i32,
                        ),
                        resolved_ids@.len() == i,
                        forall|k: int|
                            0 <= k < i ==> has_tag_id(
                                tags0 + new_tags@,
                                #[trigger] resolved_ids@[k],
                            ),
                        resolve_tags_from(tags0, user_id, refs, 0, next0) == (match resolve_tags_from(
                            tags0 + new_tags@,
                            user_id,
                            refs,
                            i as int,
                            (next0 + new_tags@.len()) as i32,
                        ) {
                            None => None::<(Seq<Tag>, Seq<i32>)>,
                            Some(pr) => Some((pr.0, resolved_ids@ + pr.1)),
                        }),
                    decreases tag_refs@.len() - i,
                {
                    let ghost cur = tags0 + new_tags@;
                    let ghost nxt = (next0 + new_tags@.len()) as i32;
                    let ghost rids_old = resolved_ids@;
                    match &tag_refs[i] {
                        TagReference::Id(t) => {
                            let tid = *t;
                            let in_store = find_tag_by_id(&self.tags, tid).is_some();
                            let in_new = find_tag_by_id(&new_tags, tid).is_some();
                            proof {
                                lemma_has_tag_id_concat(tags0, new_tags@, tid);
                            }
                            if !in_store && !in_new {
                                proof {
                                    assert(!has_tag_id(cur, tid));
                                    assert(resolve_tags_from(cur, user_id, refs, i as int, nxt)
                                        is None);
                                }
                                return Err(ApiError::NoSuchTag);
                            }
                            resolved_ids.push(tid);
                            proof {
                                assert(has_tag_id(cur, tid));
                                let rec_next = resolve_tags_from(cur, user_id, refs, i + 1, nxt);
                                assert(resolve_tags_from(cur, user_id, refs, i as int, nxt)
                                    == (match rec_next {
                                    Some(pr) => Some((pr.0, seq![tid] + pr.1)),
                                    None => None::<(Seq<Tag>, Seq<i32>)>,
                                }));
                                match rec_next {
                                    Some(pr) => {
                                        assert(rids_old + (seq![tid] + pr.1) =~= resolved_ids@
                                            + pr.1);
                                    },
                                    None => {},
                                }
                            }
                        },
                        TagReference::Name(n) => {
                            let found_store = find_tag_by_name(&self.tags, user_id, n.as_str());
                            match found_store {
                                Some(idx) => {
                                    let tid = self.tags[idx].id;
                                    resolved_ids.push(tid);
                                    proof {
                                        lemma_has_tag_named_concat(tags0, new_tags@, user_id, n@);
                                        assert(cur[idx as int] == tags0[idx as int]);
                                        lemma_tag_named_id_agrees(cur, user_id, n@, idx as int, nxt);
                                        assert(has_tag_named(cur, user_id, n@));
                                        assert(tag_named_id(cur, user_id, n@) == tid);
                                        let rec_next = resolve_tags_from(
                                            cur,
                                            user_id,
                                            refs,
                                            i + 1,
                                            nxt,
                                        );
                                        assert(resolve_tags_from(cur, user_id, refs, i as int, nxt)
                                            == (match rec_next {
                                            Some(pr) => Some((pr.0, seq![tid] + pr.1)),
                                            None => None::<(Seq<Tag>, Seq<i32>)>,
                                        }));
                                        match rec_next {
                                            Some(pr) => {
                                                assert(rids_old + (seq![tid] + pr.1)
                                                    =~= resolved_ids@ + pr.1);
                                            },
                                            None => {},
                                        }
                                        assert(has_tag_id(cur, tid)) by {
                                            assert(cur[idx as int].id == tid);
                                        }
                                    }
                                },
                                None => {
                                    match find_tag_by_name(&new_tags, user_id, n.as_str()) {
                                        Some(idx2) => {
                                            let tid = new_tags[idx2].id;
                                            resolved_ids.push(tid);
                                            proof {
                                                lemma_has_tag_named_concat(
                                                    tags0,
                                                    new_tags@,
                                                    user_id,
                                                    n@,
                                                );
                                                assert(cur[tags0.len() + idx2] == new_tags@[
                                                    idx2 as int
                                                ]);
                                                lemma_tag_named_id_agrees(
                                                    cur,
                                                    user_id,
                                                    n@,
                                                    tags0.len() + idx2,
                                                    nxt,
                                                );
                                                assert(has_tag_named(cur, user_id, n@));
                                                assert(tag_named_id(cur, user_id, n@) == tid);
                                                let rec_next = resolve_tags_from(
                                                    cur,
                                                    user_id,
                                                    refs,
                                                    i + 1,
                                                    nxt,
                                                );
                                                assert(resolve_tags_from(
                                                    cur,
                                                    user_id,
                                                    refs,
                                                    i as int,
                                                    nxt,
                                                ) == (match rec_next {
                                                    Some(pr) => Some((pr.0, seq![tid] + pr.1)),
                                                    None => None::<(Seq<Tag>, Seq<i32>)>,
                                                }));
                                                match rec_next {
                                                    Some(pr) => {
                                                        assert(rids_old + (seq![tid] + pr.1)
                                                            =~= resolved_ids@ + pr.1);
                                                    },
                                                    None => {},
                                                }
                                                assert(has_tag_id(cur, tid)) by {
                                                    assert(cur[tags0.len() + idx2].id == tid);
                                                }
                                            }
                                        },
                                        None => {
                                            let fresh_id = self.next_tag_id + (new_tags.len()
                                                as i32);
                                            let fresh = Tag {
                                                id: fresh_id,
                                                name: n.clone(),
                                                user_id,
                                            };
                                            proof {
                                                lemma_has_tag_named_concat(
                                                    tags0,
                                                    new_tags@,
                                                    user_id,
                                                    n@,
                                                );
                                                assert(!has_tag_named(cur, user_id, n@));
                                                lemma_tags_push_wf(cur, nxt, fresh);
                                            }
                                            resolved_ids.push(fresh_id);
                                            new_tags.push(fresh);
                                            proof {
                                                assert(tags0 + new_tags@ =~= cur.push(fresh));
                                                let cur2 = cur.push(fresh);
                                                let nxt2 = (nxt + 1) as i32;
                                                assert(tags0 + new_tags@ == cur2);
                                                assert((next0 + new_tags@.len()) as i32 == nxt2);
                                                assert forall|k: int|
                                                    0 <= k < resolved_ids@.len() implies has_tag_id(
                                                    cur2,
                                                    #[trigger] resolved_ids@[k],
                                                ) by {
                                                    if k < rids_old.len() {
                                                        lemma_has_tag_id_grow(
                                                            cur,
                                                            cur2,
                                                            rids_old[k],
                                                        );
                                                    } else {
                                                        assert(cur2[cur.len() as int].id
                                                            == fresh_id);
                                                    }
                                                }
                                                let rec_next = resolve_tags_from(
                                                    cur2,
                                                    user_id,
                                                    refs,
                                                    i + 1,
                                                    nxt2,
                                                );
                                                assert(resolve_tags_from(
                                                    cur,
                                                    user_id,
                                                    refs,
                                                    i as int,
                                                    nxt,
                                                ) == (match rec_next {
                                                    Some(pr) => Some((pr.0, seq![fresh_id] + pr.1)),
                                                    None => None::<(Seq<Tag>, Seq<i32>)>,
                                                }));
                                                match rec_next {
                                                    Some(pr) => {
                                                        assert(rids_old + (seq![fresh_id] + pr.1)
                                                            =~= resolved_ids@ + pr.1);
                                                    },
                                                    None => {},
                                                }
                                            }
                                        },
                                    }
                                },
                            }
                        },
                    }
                    i = i + 1;
                }
            },
            None => {
                proof {
                    assert(refs =~= Seq::<TagReference>::empty());
                    assert(tags0 + new_tags@ =~= tags0);
                }
            },
        }
        let ghost cur_final = tags0 + new_tags@;
        let ghost nxt_final = (next0 + new_tags@.len()) as i32;
        proof {
            assert(resolve_tags_from(cur_final, user_id, refs, refs.len() as int, nxt_final)
                == Some((cur_final, Seq::<i32>::empty())));
            assert(resolved_ids@ + Seq::<i32>::empty() =~= resolved_ids@);
            assert(resolve_tags_from(tags0, user_id, refs, 0, next0) == Some(
                (cur_final, resolved_ids@),
            ));
        }
        // Step 4: a tag referenced twice cannot be linked twice.
        if !distinct_check(&resolved_ids) {
            return Err(ApiError::DuplicateTransactionTag);
        }
        proof {
            assert(create_transaction_err(s0, user_id, payload) is None);
        }
        // Step 5: the write phase; nothing below can fail.
        let resolved_pid: i32 = match product_found_id {
            Some(pid) => pid,
            None => {
                match product_to_create {
                    Some(t) => {
                        let npid = self.next_product_id;
                        let new_prod = Product { id: npid, user_id, category_id: None, name: t };
                        proof {
                            lemma_products_push_wf(self.products@, self.next_product_id, new_prod);
                        }
                        self.products.push(new_prod);
                        self.next_product_id = npid + 1;
                        npid
                    },
                    None => {
                        proof {
                            assert(false);
                        }
                        0
                    },
                }
            },
        };
        proof {
            assert forall|i: int|
                0 <= i < self.product_prices@.len() implies has_product_id(
                self.products@,
                (#[trigger] self.product_prices@[i]).product_id,
            ) by {
                lemma_has_product_id_grow(
                    s0.products@,
                    self.products@,
                    self.product_prices@[i].product_id,
                );
            }
            assert forall|i: int|
                0 <= i < self.transactions@.len() implies has_product_id(
                self.products@,
                (#[trigger] self.transactions@[i]).product_id,
            ) by {
                lemma_has_product_id_grow(
                    s0.products@,
                    self.products@,
                    self.transactions@[i].product_id,
                );
            }
            if s0.products@.len() < self.products@.len() {
                assert(self.products@.last().id == resolved_pid);
                assert(has_product_id(self.products@, resolved_pid));
            } else {
                assert(has_product_id(s0.products@, resolved_pid));
                let i = choose|i: int|
                    0 <= i < s0.products@.len() && s0.products@[i].id == resolved_pid;
                assert(self.products@[i].id == resolved_pid);
            }
            assert(resolved_pid == rpid_spec);
        }
        // Step 5b: the price row, dated like the transaction.
        let ghost rppid_spec = tx_price_id_spec(payload, s0.next_product_price_id);
        let resolved_ppid: i32 = match payload.product_price_id {
            Some(ppid) => ppid,
            None => {
                let ppid = self.next_product_price_id;
                let amount: i32 = match payload.price {
                    Some(c) => c,
                    None => 0,
                };
                let price_row = ProductPrice {
                    id: ppid,
                    product_id: resolved_pid,
                    price: amount,
                    created_at: payload.date,
                };
                proof {
                    lemma_prices_push_wf(
                        self.product_prices@,
                        self.next_product_price_id,
                        price_row,
                        self.products@,
                    );
                }
                self.product_prices.push(price_row);
                self.next_product_price_id = ppid + 1;
                ppid
            },
        };
        proof {
            assert forall|i: int|
                0 <= i < self.transactions@.len() implies has_price_id(
                self.product_prices@,
                (#[trigger] self.transactions@[i]).product_price_id,
            ) by {
                lemma_has_price_id_grow(
                    s0.product_prices@,
                    self.product_prices@,
                    self.transactions@[i].product_price_id,
                );
            }
            if s0.product_prices@.len() < self.product_prices@.len() {
                assert(self.product_prices@.last().id == resolved_ppid);
                assert(has_price_id(self.product_prices@, resolved_ppid));
            } else {
                assert(has_price_id(s0.product_prices@, resolved_ppid));
                let i = choose|i: int|
                    0 <= i < s0.product_prices@.len() && s0.product_prices@[i].id == resolved_ppid;
                assert(self.product_prices@[i].id == resolved_ppid);
            }
            assert(resolved_ppid == rppid_spec);
        }
        // Step 5c: the transaction row itself.
        let txid = self.next_transaction_id;
        let tx_row = Transaction {
            id: txid,
            user_id,
            product_id: resolved_pid,
            product_price_id: resolved_ppid,
            transaction_type: payload.transaction_type,
            description: payload.description,
            date: payload.date,
        };
        let response_tx = tx_row.clone();
        proof {
            lemma_transactions_push_wf(
                self.transactions@,
                self.next_transaction_id,
                tx_row,
                self.products@,
                self.product_prices@,
            );
        }
        self.transactions.push(tx_row);
        self.next_transaction_id = txid + 1;
        proof {
            assert forall|i: int|
                0 <= i < self.transaction_tags@.len() implies has_transaction_id(
                self.transactions@,
                (#[trigger] self.transaction_tags@[i]).transaction_id,
            ) by {
                lemma_has_transaction_id_grow(
                    s0.transactions@,
                    self.transactions@,
                    self.transaction_tags@[i].transaction_id,
                );
            }
        }
        // Step 5d: append the created tags.
        let ghost s_mid = *self;
        let num_new = new_tags.len();
        let mut k: usize = 0;
        proof {
            assert(self.tags@ =~= tags0 + new_tags@.take(0));
        }
        while k < num_new
            invariant
                0 <= k <= num_new,
                num_new == new_tags@.len(),
                s_mid.same_but_tags(*self),
                s_mid.tags@ == tags0,
                s_mid.next_tag_id == next0,
                next0 + num_new <= i32::MAX,
                self.tags@ == tags0 + new_tags@.take(k as int),
                self.next_tag_id == next0 + k,
                forall|j: int|
                    0 <= j < new_tags@.len() ==> (#[trigger] new_tags@[j]).id == next0 + j
                        && new_tags@[j].user_id == user_id,
                crate::store::tags_wf(tags0 + new_tags@, (next0 + num_new) as i32),
                crate::store::tags_wf(self.tags@, self.next_tag_id),
            decreases num_new - k,
        {
            let row = new_tags[k].clone();
            proof {
                let pre = tags0 + new_tags@.take(k as int);
                let full = tags0 + new_tags@;
                assert(row == new_tags@[k as int]);
                assert(row.id == next0 + k);
                assert(!has_tag_named(pre, row.user_id, row.name@)) by {
                    if has_tag_named(pre, row.user_id, row.name@) {
                        let idx = choose|idx: int|
                            0 <= idx < pre.len() && pre[idx].user_id == row.user_id && pre[
                                idx
                            ].name@ == row.name@;
                        assert(full[idx] == pre[idx]);
                        assert(full[tags0.len() + k] == new_tags@[k as int]);
                        assert(idx < tags0.len() + k);
                        assert(full[idx].name@ != full[tags0.len() + k].name@);
                    }
                }
                lemma_tags_push_wf(self.tags@, self.next_tag_id, row);
                assert(tags0 + new_tags@.take(k + 1) =~= (tags0 + new_tags@.take(k as int)).push(
                    new_tags@[k as int],
                ));
            }
            self.tags.push(row);
            self.next_tag_id = self.next_tag_id + 1;
            k = k + 1;
        }
        proof {
            assert(new_tags@.take(num_new as int) =~= new_tags@);
            assert(self.tags@ == cur_final);
            assert(self.next_tag_id == nxt_final);
            assert forall|i: int|
                0 <= i < self.transaction_tags@.len() implies has_tag_id(
                self.tags@,
                (#[trigger] self.transaction_tags@[i]).tag_id,
            ) by {
                lemma_has_tag_id_grow(tags0, self.tags@, self.transaction_tags@[i].tag_id);
            }
        }
        // Step 5e: one join row per resolved tag.
        let ghost s_mid2 = *self;
        proof {
            assert(s_mid2.transaction_tags@ == s0.transaction_tags@);
            assert(s_mid2.transactions@[s_mid2.transactions@.len() - 1].id == txid);
            assert(has_transaction_id(s_mid2.transactions@, txid));
            assert forall|j: int|
                0 <= j < s_mid2.transaction_tags@.len() implies (#[trigger] s_mid2.transaction_tags@[
                j
            ]).transaction_id != txid by {
                assert(has_transaction_id(s0.transactions@, s_mid2.transaction_tags@[j].transaction_id));
                let x = choose|x: int|
                    0 <= x < s0.transactions@.len() && s0.transactions@[x].id == s_mid2.transaction_tags@[
                        j
                    ].transaction_id;
                assert(s0.transactions@[x].id < txid);
            }
            assert(join_rows_of(txid, resolved_ids@.take(0)) =~= Seq::<TransactionTag>::empty());
            assert(self.transaction_tags@ =~= s_mid2.transaction_tags@ + join_rows_of(
                txid,
                resolved_ids@.take(0),
            ));
        }
        let num_ids = resolved_ids.len();
        let mut k2: usize = 0;
        while k2 < num_ids
            invariant
                0 <= k2 <= num_ids,
                num_ids == resolved_ids@.len(),
                s_mid2.same_but_transaction_tags(*self),
                self.transaction_tags@ == s_mid2.transaction_tags@ + join_rows_of(
                    txid,
                    resolved_ids@.take(k2 as int),
                ),
                distinct_i32s(resolved_ids@),
                forall|j: int|
                    0 <= j < s_mid2.transaction_tags@.len() ==> (#[trigger] s_mid2.transaction_tags@[
                        j
                    ]).transaction_id != txid,
                forall|j: int|
                    0 <= j < resolved_ids@.len() ==> has_tag_id(
                        s_mid2.tags@,
                        #[trigger] resolved_ids@[j],
                    ),
                has_transaction_id(s_mid2.transactions@, txid),
                crate::store::transaction_tags_wf(
                    self.transaction_tags@,
                    s_mid2.transactions@,
                    s_mid2.tags@,
                ),
            decreases num_ids - k2,
        {
            let t = resolved_ids[k2];
            proof {
                let pre = self.transaction_tags@;
                let newrow = join_row(txid, t);
                let grown = pre.push(newrow);
                assert forall|x: int, y: int| 0 <= x < y < grown.len() implies #[trigger] grown[x]
                    != #[trigger] grown[y] by {
                    if y == pre.len() {
                        assert(grown[y] == newrow);
                        if x < s_mid2.transaction_tags@.len() {
                            assert(grown[x] == s_mid2.transaction_tags@[x]);
                            assert(grown[x].transaction_id != txid);
                        } else {
                            let xj = x - s_mid2.transaction_tags@.len();
                            assert(grown[x] == join_rows_of(txid, resolved_ids@.take(k2 as int))[
                                xj
                            ]);
                            assert(grown[x].tag_id == resolved_ids@[xj]);
                            assert(resolved_ids@[xj] != resolved_ids@[k2 as int]);
                        }
                    } else {
                        assert(grown[x] == pre[x]);
                        assert(grown[y] == pre[y]);
                    }
                }
                assert forall|x: int| 0 <= x < grown.len() implies has_transaction_id(
                    s_mid2.transactions@,
                    (#[trigger] grown[x]).transaction_id,
                ) by {
                    if x < pre.len() {
                        assert(grown[x] == pre[x]);
                    } else {
                        assert(grown[x] == newrow);
                    }
                }
                assert forall|x: int| 0 <= x < grown.len() implies crate::tags::has_tag_id(
                    s_mid2.tags@,
                    (#[trigger] grown[x]).tag_id,
                ) by {
                    if x < pre.len() {
                        assert(grown[x] == pre[x]);
                    } else {
                        assert(grown[x] == newrow);
                        assert(has_tag_id(s_mid2.tags@, resolved_ids@[k2 as int]));
                    }
                }
                assert(s_mid2.transaction_tags@ + join_rows_of(txid, resolved_ids@.take(k2 + 1))
                    =~= grown);
            }
            self.transaction_tags.push(TransactionTag { transaction_id: txid, tag_id: t });
            k2 = k2 + 1;
        }
        proof {
            assert(resolved_ids@.take(num_ids as int) =~= resolved_ids@);
        }
        // Step 6: read the committed rows back for the response.
        let product_row = match find_product_by_id(&self.products, resolved_pid) {
            Some(i) => self.products[i].clone(),
            None => {
                proof {
                    assert(false);
                }
                Product { id: 0, user_id: 0, category_id: None, name: String::new() }
            },
        };
        let price_dto = match find_price_by_id(&self.product_prices, resolved_ppid) {
            Some(i) => ProductPriceDto {
                id: self.product_prices[i].id,
                product_id: self.product_prices[i].product_id,
                price: self.product_prices[i].price,
                created_at: self.product_prices[i].created_at,
            },
            None => {
                proof {
                    assert(false);
                }
                ProductPriceDto { id: 0, product_id: 0, price: 0, created_at: 0 }
            },
        };
        let ghost s_final = *self;
        let mut response_tags: Vec<TagDto> = Vec::new();
        let mut k3: usize = 0;
        while k3 < resolved_ids.len()
            invariant
                0 <= k3 <= resolved_ids@.len(),
                *self == s_final,
                forall|j: int|
                    0 <= j < resolved_ids@.len() ==> has_tag_id(
                        s_final.tags@,
                        #[trigger] resolved_ids@[j],
                    ),
                tags_echo(response_tags@, resolved_ids@.take(k3 as int), s_final.tags@),
            decreases resolved_ids@.len() - k3,
        {
            let ghost rt_old = response_tags@;
            match find_tag_by_id(&self.tags, resolved_ids[k3]) {
                Some(x) => {
                    response_tags.push(TagDto { id: self.tags[x].id, name: self.tags[x].name.clone() });
                },
                None => {
                    proof {
                        assert(false);
                    }
                },
            }
            proof {
                let pre = resolved_ids@.take(k3 as int);
                let post = resolved_ids@.take(k3 + 1);
                assert(post.len() == k3 + 1);
                assert forall|j: int|
                    0 <= j < post.len() implies (#[trigger] response_tags@[j]).id == post[j]
                    && exists|i: int|
                    0 <= i < s_final.tags@.len() && s_final.tags@[i].id == post[j]
                        && s_final.tags@[i].name@ == response_tags@[j].name@ by {
                    if j < k3 {
                        assert(response_tags@[j] == rt_old[j]);
                        assert(post[j] == pre[j]);
                        assert(rt_old[j].id == pre[j]);
                    } else {
                        assert(post[j] == resolved_ids@[k3 as int]);
                    }
                }
            }
            k3 = k3 + 1;
        }
        let ghost rtags_v = response_tags@;
        let response = CreateTransactionResponse {
            transaction: response_tx,
            product: product_row,
            product_price: price_dto,
            tags: response_tags,
        };
        proof {
            let resolved = resolve_tags_from(s0.tags@, user_id, refs, 0, next0);
            assert(resolved == Some((cur_final, resolved_ids@)));
            assert(self.tags@ == cur_final);
            assert(self.next_tag_id == s0.next_tag_id + (cur_final.len() - s0.tags@.len()));
            assert(self.transaction_tags@ =~= s0.transaction_tags@ + join_rows_of(
                txid,
                resolved_ids@,
            ));
            assert(resolved_ids@.take(resolved_ids@.len() as int) =~= resolved_ids@);
            assert(response.tags@ == rtags_v);
            assert(s_final.tags@ == self.tags@);
            assert(tags_echo(response.tags@, resolved_ids@, self.tags@));
            assert(tx_products_after(s0, *self, user_id, payload));
            assert(tx_prices_after(s0, *self, user_id, payload));
            assert(tx_row_after(s0, *self, user_id, payload));
            assert(tx_tags_after(s0, *self, user_id, payload, response));
            assert(tx_response_after(s0, *self, user_id, payload, response));
            assert(create_transaction_ok(s0, *self, user_id, payload, response));
        }
        Ok(response)
    }
}


/// The transactions owned by one user, in insertion order.
pub open spec fn transactions_of(txs: Seq<Transaction>, user_id: i32) -> Seq<Transaction> {
    txs.filter(|t: Transaction| t.user_id == user_id)
}

/// The tag ids one transaction is linked to, in join-table order.
pub open spec fn tag_ids_for(ttags: Seq<TransactionTag>, txid: i32) -> Seq<i32> {
    ttags.filter(|tt: TransactionTag| tt.transaction_id == txid).map_values(|tt: TransactionTag| tt.tag_id)
}

/// Whether a listing row projects one stored transaction, with its tag
/// ids joined on.
pub open spec fn tx_dto_matches(dto: TransactionDto, tx: Transaction, ttags: Seq<TransactionTag>) -> bool {
    &&& dto.id == tx.id
    &&& dto.user_id == tx.user_id
    &&& dto.product_id == tx.product_id
    &&& dto.product_price_id == tx.product_price_id
    &&& dto.transaction_type == tx.transaction_type
    &&& dto.description == tx.description
    &&& dto.date == tx.date
    &&& dto.tags@ == tag_ids_for(ttags, tx.id)
}

impl Store {
    /// Lists this user's transactions in insertion order, each with the
    /// ids of its tags joined on in join-table order.
    pub fn list_transactions(&self, user_id: i32) -> (r: Vec<TransactionDto>)
        ensures
            r@.len() == transactions_of(self.transactions@, user_id).len(),
            forall|k: int|
                0 <= k < r@.len() ==> tx_dto_matches(
                    #[trigger] r@[k],
                    transactions_of(self.transactions@, user_id)[k],
                    self.transaction_tags@,
                ),
    {
        let mut out: Vec<TransactionDto> = Vec::new();
        let mut i: usize = 0;
        proof {
            assert(self.transactions@.take(0) =~= Seq::<Transaction>::empty());
            reveal(Seq::filter);
        }
        while i < self.transactions.len()
            invariant
                0 <= i <= self.transactions@.len(),
                out@.len() == transactions_of(self.transactions@.take(i as int), user_id).len(),
                forall|k: int|
                    0 <= k < out@.len() ==> tx_dto_matches(
                        #[trigger] out@[k],
                        transactions_of(self.transactions@.take(i as int), user_id)[k],
                        self.transaction_tags@,
                    ),
            decreases self.transactions@.len() - i,
        {
            let ghost pre = transactions_of(self.transactions@.take(i as int), user_id);
            proof {
                broadcast use Seq::lemma_filter_push;

                assert(self.transactions@.take(i + 1) =~= self.transactions@.take(i as int).push(
                    self.transactions@[i as int],
                ));
            }
            if self.transactions[i].user_id == user_id {
                let tx = &self.transactions[i];
                let txid = tx.id;
                // In-process join: collect this transaction's tag ids.
                let mut tag_ids: Vec<i32> = Vec::new();
                let mut j: usize = 0;
                proof {
                    assert(self.transaction_tags@.take(0) =~= Seq::<TransactionTag>::empty());
                    assert(tag_ids@ =~= tag_ids_for(self.transaction_tags@.take(0), txid));
                }
                while j < self.transaction_tags.len()
                    invariant
                        0 <= j <= self.transaction_tags@.len(),
                        tag_ids@ == tag_ids_for(self.transaction_tags@.take(j as int), txid),
                    decreases self.transaction_tags@.len() - j,
                {
                    proof {
                        broadcast use Seq::lemma_filter_push;

                        assert(self.transaction_tags@.take(j + 1) =~= self.transaction_tags@.take(
                            j as int,
                        ).push(self.transaction_tags@[j as int]));
                        let base = self.transaction_tags@.take(j as int).filter(
                            |tt: TransactionTag| tt.transaction_id == txid,
                        );
                        if self.transaction_tags@[j as int].transaction_id == txid {
                            assert(base.push(self.transaction_tags@[j as int]).map_values(
                                |tt: TransactionTag| tt.tag_id,
                            ) =~= base.map_values(|tt: TransactionTag| tt.tag_id).push(
                                self.transaction_tags@[j as int].tag_id,
                            ));
                        }
                    }
                    if self.transaction_tags[j].transaction_id == txid {
                        tag_ids.push(self.transaction_tags[j].tag_id);
                    }
                    j = j + 1;
                }
                proof {
                    assert(self.transaction_tags@.take(self.transaction_tags@.len() as int)
                        =~= self.transaction_tags@);
                }
                let dto = TransactionDto {
                    id: tx.id,
                    user_id: tx.user_id,
                    product_id: tx.product_id,
                    product_price_id: tx.product_price_id,
                    transaction_type: tx.transaction_type,
                    description: match &tx.description {
                        Some(d) => Some(d.clone()),
                        None => None,
                    },
                    date: tx.date,
                    tags: tag_ids,
                };
                out.push(dto);
                proof {
                    let now = transactions_of(self.transactions@.take(i + 1), user_id);
                    assert(now == pre.push(self.transactions@[i as int]));
                    assert forall|k: int| 0 <= k < out@.len() implies tx_dto_matches(
                        #[trigger] out@[k],
                        now[k],
                        self.transaction_tags@,
                    ) by {
                        if k < out@.len() - 1 {
                            assert(now[k] == pre[k]);
                        } else {
                            assert(now[k] == self.transactions@[i as int]);
                        }
                    }
                }
            }
            i = i + 1;
        }
        proof {
            assert(self.transactions@.take(self.transactions@.len() as int)
                =~= self.transactions@);
        }
        out
    }
}

} // verus!
