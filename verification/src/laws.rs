//! The laws the store keeps, stated once and proved from the contracts of
//! the operations: per-user isolation of every listing, conflict on the
//! second direct creation of a name, reuse (not duplication) on the
//! resolving paths, and the stability of reads.

use vstd::prelude::*;
use crate::analytics::{has_user_category, sum_on_category, tx_category_name};
use crate::categories::{
    categories_of, cat_named_id, create_category_err, create_category_ok, has_category_named,
    Category, CategoryPayload,
};
use crate::product_prices::ProductPrice;
use crate::errors::ApiError;
use crate::product_prices::{
    create_product_price_ok, CreateProductPriceResponse, ProductPricePayload,
};
use crate::products::{
    create_product_err, create_product_ok, has_product_named, prod_named_id, products_of, Product,
    ProductPayload,
};
use crate::store::Store;
use crate::tags::{
    create_tag_err, has_tag_id, has_tag_named, lemma_tags_push_wf, tag_named_id, tags_of, Tag, TagPayload,
    TagReference,
};
use crate::text::trim_spec;
use crate::store::tags_wf;
use crate::transactions::{
    create_transaction_ok, distinct_i32s, join_row, join_rows_of, resolve_tags_from, tag_ids_for,
    transactions_of, tx_tag_refs, CreateTransactionResponse, Transaction, TransactionPayload,
};

verus! {

/// Rows created under one user are absent from every listing made as
/// another: each user-scoped listing holds only the caller's rows, so a
/// row owned by someone else cannot appear in it.
pub proof fn lemma_user_isolation(
    cats: Seq<Category>,
    prods: Seq<Product>,
    tags: Seq<Tag>,
    txs: Seq<Transaction>,
    owner: i32,
    caller: i32,
)
    requires
        owner != caller,
    ensures
        forall|i: int|
            0 <= i < cats.len() && (#[trigger] cats[i]).user_id == owner ==> !categories_of(
                cats,
                caller,
            ).contains(cats[i]),
        forall|i: int|
            0 <= i < prods.len() && (#[trigger] prods[i]).user_id == owner ==> !products_of(
                prods,
                caller,
            ).contains(prods[i]),
        forall|i: int|
            0 <= i < tags.len() && (#[trigger] tags[i]).user_id == owner ==> !tags_of(
                tags,
                caller,
            ).contains(tags[i]),
        forall|i: int|
            0 <= i < txs.len() && (#[trigger] txs[i]).user_id == owner ==> !transactions_of(
                txs,
                caller,
            ).contains(txs[i]),
{
    broadcast use Seq::lemma_filter_pred;

    assert forall|i: int|
        0 <= i < cats.len() && (#[trigger] cats[i]).user_id == owner implies !categories_of(
        cats,
        caller,
    ).contains(cats[i]) by {
        if categories_of(cats, caller).contains(cats[i]) {
            let k = choose|k: int|
                0 <= k < categories_of(cats, caller).len() && categories_of(cats, caller)[k]
                    == cats[i];
            assert(categories_of(cats, caller)[k].user_id == caller);
        }
    }
    assert forall|i: int|
        0 <= i < prods.len() && (#[trigger] prods[i]).user_id == owner implies !products_of(
        prods,
        caller,
    ).contains(prods[i]) by {
        if products_of(prods, caller).contains(prods[i]) {
            let k = choose|k: int|
                0 <= k < products_of(prods, caller).len() && products_of(prods, caller)[k]
                    == prods[i];
            assert(products_of(prods, caller)[k].user_id == caller);
        }
    }
    assert forall|i: int|
        0 <= i < tags.len() && (#[trigger] tags[i]).user_id == owner implies !tags_of(
        tags,
        caller,
    ).contains(tags[i]) by {
        if tags_of(tags, caller).contains(tags[i]) {
            let k = choose|k: int|
                0 <= k < tags_of(tags, caller).len() && tags_of(tags, caller)[k] == tags[i];
            assert(tags_of(tags, caller)[k].user_id == caller);
        }
    }
    assert forall|i: int|
        0 <= i < txs.len() && (#[trigger] txs[i]).user_id == owner implies !transactions_of(
        txs,
        caller,
    ).contains(txs[i]) by {
        if transactions_of(txs, caller).contains(txs[i]) {
            let k = choose|k: int|
                0 <= k < transactions_of(txs, caller).len() && transactions_of(txs, caller)[k]
                    == txs[i];
            assert(transactions_of(txs, caller)[k].user_id == caller);
        }
    }
}

/// Creating the same category name twice for the same user conflicts the
/// second time: a successful creation leaves the name taken, and the
/// direct create path then reports the duplicate.
pub proof fn lemma_create_category_twice_conflicts(
    s0: Store,
    s1: Store,
    user_id: i32,
    p: CategoryPayload,
    resp: crate::categories::CreateCategoryResponse,
)
    requires
        create_category_err(s0.categories@, user_id, p) is None,
        create_category_ok(s0, s1, user_id, p, resp),
    ensures
        create_category_err(s1.categories@, user_id, p) == Some(ApiError::DuplicateCategory),
{
    let c = s1.categories@.last();
    assert(c.user_id == user_id && c.name@ == p.name@);
    assert(has_category_named(s1.categories@, user_id, p.name@));
}

/// Creating the same product name twice for the same user conflicts the
/// second time.
pub proof fn lemma_create_product_twice_conflicts(
    s0: Store,
    s1: Store,
    user_id: i32,
    p: ProductPayload,
    resp: crate::products::CreateProductResponse,
)
    requires
        create_product_err(s0.products@, user_id, p) is None,
        create_product_ok(s0, s1, user_id, p, resp),
    ensures
        create_product_err(s1.products@, user_id, p) == Some(ApiError::DuplicateProduct),
{
    let np = s1.products@.last();
    assert(np.user_id == user_id && np.name@ == p.name@);
    assert(has_product_named(s1.products@, user_id, p.name@));
}

/// A tag name the user already holds conflicts on the direct create
/// path; together with the create contract (which appends exactly the
/// submitted name) the second identical creation always conflicts.
pub proof fn lemma_create_tag_twice_conflicts(tags: Seq<Tag>, user_id: i32, p: TagPayload)
    requires
        has_tag_named(tags, user_id, p.name@),
    ensures
        create_tag_err(tags, user_id, p) == Some(ApiError::DuplicateTag),
{
}

/// The resolving path reuses instead of erroring: naming an existing
/// category while creating a product inserts no category row and wires
/// the product to the existing category's id.
pub proof fn lemma_resolving_path_reuses_category(
    s0: Store,
    s1: Store,
    user_id: i32,
    p: ProductPayload,
    resp: crate::products::CreateProductResponse,
)
    requires
        p.category_id is None,
        p.category_name matches Some(n) && trim_spec(n@).len() > 0 && has_category_named(
            s0.categories@,
            user_id,
            trim_spec(n@),
        ),
        create_product_ok(s0, s1, user_id, p, resp),
    ensures
        s1.categories@ == s0.categories@,
        p.category_name matches Some(n) ==> s1.products@.last().category_id == Some(
            cat_named_id(s0.categories@, user_id, trim_spec(n@)),
        ),
{
    assert(s1.categories@.len() == s0.categories@.len());
    assert(s1.categories@ =~= s0.categories@);
}

/// Tag resolution only appends: every row of the starting table keeps
/// its place in the table resolution produces.
pub proof fn lemma_resolution_extends_table(
    tags: Seq<Tag>,
    user_id: i32,
    refs: Seq<TagReference>,
    i: int,
    next: i32,
)
    requires
        0 <= i <= refs.len(),
    ensures
        resolve_tags_from(tags, user_id, refs, i, next) matches Some(pr) ==> pr.0.len()
            >= tags.len() && (forall|k: int| 0 <= k < tags.len() ==> #[trigger] pr.0[k] == tags[k]),
    decreases refs.len() - i,
{
    if i < refs.len() {
        match refs[i] {
            TagReference::Id(t) => {
                if has_tag_id(tags, t) {
                    lemma_resolution_extends_table(tags, user_id, refs, i + 1, next);
                }
            },
            TagReference::Name(n) => {
                if has_tag_named(tags, user_id, n@) {
                    lemma_resolution_extends_table(tags, user_id, refs, i + 1, next);
                } else {
                    let fresh = Tag { id: next, name: n, user_id };
                    let tags2 = tags.push(fresh);
                    lemma_resolution_extends_table(tags2, user_id, refs, i + 1, (next + 1) as i32);
                    match resolve_tags_from(tags2, user_id, refs, i + 1, (next + 1) as i32) {
                        Some(pr1) => {
                            assert forall|k: int| 0 <= k < tags.len() implies #[trigger] pr1.0[k]
                                == tags[k] by {
                                assert(pr1.0[k] == tags2[k]);
                            }
                        },
                        None => {},
                    }
                }
            },
        }
    }
}

/// A name the user already holds resolves, at whatever position it
/// stands in the reference list, to the id of the existing tag: the
/// resolving path reuses, it never duplicates.
pub proof fn lemma_resolution_reuses_held_name(
    tags: Seq<Tag>,
    user_id: i32,
    refs: Seq<TagReference>,
    i: int,
    next: i32,
    j: int,
)
    requires
        tags_wf(tags, next),
        0 <= i <= j < refs.len(),
        next + (refs.len() - i) <= i32::MAX,
        refs[j] matches TagReference::Name(n) && has_tag_named(tags, user_id, n@),
    ensures
        resolve_tags_from(tags, user_id, refs, i, next) matches Some(pr) ==> pr.1.len() == refs.len()
            - i && pr.1[j - i] == tag_named_id(tags, user_id, ref_name(refs[j])),
    decreases refs.len() - i,
{
    lemma_resolution_yields_one_id_per_reference(tags, user_id, refs, i, next);
    if resolve_tags_from(tags, user_id, refs, i, next) is Some {
        match refs[i] {
            TagReference::Id(t) => {
                if has_tag_id(tags, t) {
                    lemma_resolution_reuses_held_name(tags, user_id, refs, i + 1, next, j);
                    let pr1 = resolve_tags_from(tags, user_id, refs, i + 1, next).unwrap();
                    assert((seq![t] + pr1.1)[j - i] == pr1.1[j - i - 1]);
                }
            },
            TagReference::Name(m) => {
                if has_tag_named(tags, user_id, m@) {
                    let t = tag_named_id(tags, user_id, m@);
                    if i == j {
                        let pr1 = resolve_tags_from(tags, user_id, refs, i + 1, next).unwrap();
                        assert((seq![t] + pr1.1)[0] == t);
                    } else {
                        lemma_resolution_reuses_held_name(tags, user_id, refs, i + 1, next, j);
                        let pr1 = resolve_tags_from(tags, user_id, refs, i + 1, next).unwrap();
                        assert((seq![t] + pr1.1)[j - i] == pr1.1[j - i - 1]);
                    }
                } else {
                    let fresh = Tag { id: next, name: m, user_id };
                    let tags2 = tags.push(fresh);
                    lemma_tags_push_wf(tags, next, fresh);
                    assert(i < j);
                    let idx = choose|idx: int|
                        0 <= idx < tags.len() && tags[idx].user_id == user_id && tags[idx].name@
                            == ref_name(refs[j]);
                    assert(tags2[idx] == tags[idx]);
                    assert(has_tag_named(tags2, user_id, ref_name(refs[j])));
                    lemma_resolution_reuses_held_name(
                        tags2,
                        user_id,
                        refs,
                        i + 1,
                        (next + 1) as i32,
                        j,
                    );
                    let pr1 = resolve_tags_from(tags2, user_id, refs, i + 1, (next + 1) as i32)
                        .unwrap();
                    assert((seq![next] + pr1.1)[j - i] == pr1.1[j - i - 1]);
                    crate::tags::lemma_tag_named_id_agrees(
                        tags2,
                        user_id,
                        ref_name(refs[j]),
                        idx,
                        (next + 1) as i32,
                    );
                    crate::tags::lemma_tag_named_id_agrees(tags, user_id, ref_name(refs[j]), idx, next);
                }
            },
        }
    }
}

/// A successful resolution yields exactly one id per reference.
pub proof fn lemma_resolution_yields_one_id_per_reference(
    tags: Seq<Tag>,
    user_id: i32,
    refs: Seq<TagReference>,
    i: int,
    next: i32,
)
    requires
        0 <= i <= refs.len(),
    ensures
        resolve_tags_from(tags, user_id, refs, i, next) matches Some(pr) ==> pr.1.len()
            == refs.len() - i,
    decreases refs.len() - i,
{
    if i < refs.len() {
        match refs[i] {
            TagReference::Id(t) => {
                lemma_resolution_yields_one_id_per_reference(tags, user_id, refs, i + 1, next);
            },
            TagReference::Name(n) => {
                if has_tag_named(tags, user_id, n@) {
                    lemma_resolution_yields_one_id_per_reference(tags, user_id, refs, i + 1, next);
                } else {
                    let fresh = Tag { id: next, name: n, user_id };
                    lemma_resolution_yields_one_id_per_reference(
                        tags.push(fresh),
                        user_id,
                        refs,
                        i + 1,
                        (next + 1) as i32,
                    );
                }
            },
        }
    }
}

/// The transaction path reuses an existing product named in the payload:
/// no product row is inserted, and the new transaction references the
/// existing row's id.
pub proof fn lemma_transaction_reuses_product(
    s0: Store,
    s1: Store,
    user_id: i32,
    p: TransactionPayload,
    resp: CreateTransactionResponse,
)
    requires
        p.product_id is None,
        p.product_name matches Some(n) && trim_spec(n@).len() > 0 && has_product_named(
            s0.products@,
            user_id,
            trim_spec(n@),
        ),
        create_transaction_ok(s0, s1, user_id, p, resp),
    ensures
        s1.products@ == s0.products@,
        s1.next_product_id == s0.next_product_id,
        p.product_name matches Some(n) ==> s1.transactions@.last().product_id == prod_named_id(
            s0.products@,
            user_id,
            trim_spec(n@),
        ) && resp.product.id == prod_named_id(s0.products@, user_id, trim_spec(n@)),
{
    assert(s1.products@.len() == s0.products@.len());
    assert(s1.products@ =~= s0.products@);
}

/// The price path reuses an existing product named in the payload: no
/// product row is inserted, and the new observation belongs to the
/// existing row.
pub proof fn lemma_price_reuses_product(
    s0: Store,
    s1: Store,
    user_id: i32,
    p: ProductPricePayload,
    resp: CreateProductPriceResponse,
)
    requires
        p.product_id is None,
        p.product_name matches Some(n) && trim_spec(n@).len() > 0 && has_product_named(
            s0.products@,
            user_id,
            trim_spec(n@),
        ),
        create_product_price_ok(s0, s1, user_id, p, resp),
    ensures
        s1.products@ == s0.products@,
        s1.next_product_id == s0.next_product_id,
        p.product_name matches Some(n) ==> s1.product_prices@.last().product_id == prod_named_id(
            s0.products@,
            user_id,
            trim_spec(n@),
        ) && resp.product.id == prod_named_id(s0.products@, user_id, trim_spec(n@)),
{
    assert(s1.products@.len() == s0.products@.len());
    assert(s1.products@ =~= s0.products@);
}

/// The transaction path reuses an existing tag named in the payload, at
/// whatever position the reference stands: no new tag row carries the
/// name, the join row inserted for that position references the existing
/// tag, and the response echoes its id.
pub proof fn lemma_transaction_reuses_tag(
    s0: Store,
    s1: Store,
    user_id: i32,
    p: TransactionPayload,
    resp: CreateTransactionResponse,
    j: int,
)
    requires
        s0.wf(),
        s1.wf(),
        s0.next_tag_id + tx_tag_refs(p).len() <= i32::MAX,
        create_transaction_ok(s0, s1, user_id, p, resp),
        0 <= j < tx_tag_refs(p).len(),
        tx_tag_refs(p)[j] matches TagReference::Name(n) && has_tag_named(s0.tags@, user_id, n@),
    ensures
        resp.tags@[j].id == tag_named_id(s0.tags@, user_id, ref_name(tx_tag_refs(p)[j])),
        s1.transaction_tags@[s0.transaction_tags@.len() + j].tag_id == tag_named_id(
            s0.tags@,
            user_id,
            ref_name(tx_tag_refs(p)[j]),
        ),
        forall|k: int|
            0 <= k < s1.tags@.len() && (#[trigger] s1.tags@[k]).user_id == user_id && s1.tags@[
                k
            ].name@ == ref_name(tx_tag_refs(p)[j]) ==> k < s0.tags@.len(),
{
    let refs = tx_tag_refs(p);
    let name = ref_name(refs[j]);
    let pr = resolve_tags_from(s0.tags@, user_id, refs, 0, s0.next_tag_id).unwrap();
    lemma_resolution_reuses_held_name(s0.tags@, user_id, refs, 0, s0.next_tag_id, j);
    assert(pr.1[j] == tag_named_id(s0.tags@, user_id, name));
    assert(s1.transaction_tags@[s0.transaction_tags@.len() + j] == join_rows_of(
        s0.next_transaction_id,
        pr.1,
    )[j]);
    assert(join_rows_of(s0.next_transaction_id, pr.1)[j] == join_row(
        s0.next_transaction_id,
        pr.1[j],
    ));
    assert(resp.tags@[j].id == pr.1[j]);
    lemma_resolution_extends_table(s0.tags@, user_id, refs, 0, s0.next_tag_id);
    let idx = choose|idx: int|
        0 <= idx < s0.tags@.len() && s0.tags@[idx].user_id == user_id && s0.tags@[idx].name@
            == name;
    assert(s1.tags@[idx] == s0.tags@[idx]);
    assert forall|k: int|
        0 <= k < s1.tags@.len() && (#[trigger] s1.tags@[k]).user_id == user_id && s1.tags@[
            k
        ].name@ == name implies k < s0.tags@.len() by {
        if k != idx {
            if idx < k {
                assert(s1.tags@[idx].name@ != s1.tags@[k].name@);
            } else {
                assert(s1.tags@[k].name@ != s1.tags@[idx].name@);
            }
        }
    }
}

/// A transaction whose product has no (resolvable) category contributes
/// to no category total and introduces no entry, wherever it stands in
/// the table: removing it changes neither any sum nor any name's
/// presence.
pub proof fn lemma_uncategorized_contributes_nothing(
    txs: Seq<Transaction>,
    prods: Seq<Product>,
    cats: Seq<Category>,
    prices: Seq<ProductPrice>,
    user_id: i32,
    name: Seq<char>,
    i: int,
)
    requires
        0 <= i < txs.len(),
        tx_category_name(txs[i], prods, cats) is None,
    ensures
        sum_on_category(txs.remove(i), prods, cats, prices, user_id, name) == sum_on_category(
            txs,
            prods,
            cats,
            prices,
            user_id,
            name,
        ),
        has_user_category(txs.remove(i), prods, cats, user_id, name) == has_user_category(
            txs,
            prods,
            cats,
            user_id,
            name,
        ),
    decreases txs.len(),
{
    if i == txs.len() - 1 {
        assert(txs.remove(i) =~= txs.drop_last());
    } else {
        assert(txs.remove(i).drop_last() =~= txs.drop_last().remove(i));
        assert(txs.remove(i).last() == txs.last());
        lemma_uncategorized_contributes_nothing(
            txs.drop_last(),
            prods,
            cats,
            prices,
            user_id,
            name,
            i,
        );
    }
    assert forall|j: int| 0 <= j < txs.remove(i).len() implies #[trigger] txs.remove(i)[j] == (
    if j < i {
        txs[j]
    } else {
        txs[j + 1]
    }) by {
        txs.remove_ensures(i);
    }
    if has_user_category(txs.remove(i), prods, cats, user_id, name) {
        let j = choose|j: int|
            0 <= j < txs.remove(i).len() && txs.remove(i)[j].user_id == user_id
                && tx_category_name(txs.remove(i)[j], prods, cats) == Some(name);
        if j < i {
            assert(txs[j] == txs.remove(i)[j]);
        } else {
            assert(txs[j + 1] == txs.remove(i)[j]);
        }
        assert(has_user_category(txs, prods, cats, user_id, name));
    }
    if has_user_category(txs, prods, cats, user_id, name) {
        let j = choose|j: int|
            0 <= j < txs.len() && txs[j].user_id == user_id && tx_category_name(
                txs[j],
                prods,
                cats,
            ) == Some(name);
        assert(j != i);
        if j < i {
            assert(txs.remove(i)[j] == txs[j]);
        } else {
            assert(txs.remove(i)[j - 1] == txs[j]);
        }
        assert(has_user_category(txs.remove(i), prods, cats, user_id, name));
    }
}

/// Reads are stable absent intervening writes: every listing is a
/// function of the tables alone, so two stores with equal tables answer
/// every read identically.
pub proof fn lemma_reads_stable(a: Store, b: Store, user_id: i32, txid: i32)
    requires
        a.categories@ == b.categories@,
        a.products@ == b.products@,
        a.tags@ == b.tags@,
        a.transactions@ == b.transactions@,
        a.transaction_tags@ == b.transaction_tags@,
    ensures
        categories_of(a.categories@, user_id) == categories_of(b.categories@, user_id),
        products_of(a.products@, user_id) == products_of(b.products@, user_id),
        tags_of(a.tags@, user_id) == tags_of(b.tags@, user_id),
        transactions_of(a.transactions@, user_id) == transactions_of(b.transactions@, user_id),
        tag_ids_for(a.transaction_tags@, txid) == tag_ids_for(b.transaction_tags@, txid),
{
}


/// The name a tag reference carries; empty for an id reference.
pub open spec fn ref_name(r: TagReference) -> Seq<char> {
    match r {
        TagReference::Name(n) => n@,
        TagReference::Id(_) => Seq::empty(),
    }
}

/// Each resolved id is the id of the tag of the user named by the
/// matching reference, looked up in the tag table resolution produced.
pub open spec fn ids_name_resolved(
    ids: Seq<i32>,
    tags_after: Seq<Tag>,
    user_id: i32,
    refs: Seq<TagReference>,
    i: int,
) -> bool
    decreases ids.len(),
{
    if ids.len() == 0 {
        true
    } else {
        &&& has_tag_named(tags_after, user_id, ref_name(refs[i]))
        &&& ids[0] == tag_named_id(tags_after, user_id, ref_name(refs[i]))
        &&& ids_name_resolved(
            ids.subrange(1, ids.len() as int),
            tags_after,
            user_id,
            refs,
            i + 1,
        )
    }
}

/// Reading one position of a resolved id list: the id at offset `l` is
/// the id of the tag named by reference `i + l`.
pub proof fn lemma_ids_name_resolved_index(
    ids: Seq<i32>,
    tags_after: Seq<Tag>,
    user_id: i32,
    refs: Seq<TagReference>,
    i: int,
    l: int,
)
    requires
        ids_name_resolved(ids, tags_after, user_id, refs, i),
        0 <= l < ids.len(),
    ensures
        has_tag_named(tags_after, user_id, ref_name(refs[i + l])),
        ids[l] == tag_named_id(tags_after, user_id, ref_name(refs[i + l])),
    decreases l,
{
    if l > 0 {
        let tail = ids.subrange(1, ids.len() as int);
        lemma_ids_name_resolved_index(tail, tags_after, user_id, refs, i + 1, l - 1);
        assert(tail[l - 1] == ids[l]);
        assert((i + 1) + (l - 1) == i + l);
    }
}

/// Prepending the id of the tag named by reference `i` to ids that
/// resolve the references after it yields ids that resolve the
/// references from `i` on.
pub proof fn lemma_resolve_step_prepend(
    ids_rest: Seq<i32>,
    tags_after: Seq<Tag>,
    user_id: i32,
    refs: Seq<TagReference>,
    i: int,
    t: i32,
)
    requires
        0 <= i < refs.len(),
        ids_name_resolved(ids_rest, tags_after, user_id, refs, i + 1),
        has_tag_named(tags_after, user_id, ref_name(refs[i])),
        t == tag_named_id(tags_after, user_id, ref_name(refs[i])),
    ensures
        ids_name_resolved(seq![t] + ids_rest, tags_after, user_id, refs, i),
{
    let ids = seq![t] + ids_rest;
    assert(ids[0] == t);
    assert(ids.subrange(1, ids.len() as int) =~= ids_rest);
}

/// The prepended id also stays distinct from the rest: the later
/// references carry other names, and distinct names of one user name
/// distinct rows with distinct ids.
pub proof fn lemma_resolve_step_distinct(
    ids_rest: Seq<i32>,
    tags_after: Seq<Tag>,
    user_id: i32,
    refs: Seq<TagReference>,
    i: int,
    t: i32,
    next: i32,
)
    requires
        0 <= i < refs.len(),
        ids_rest.len() == refs.len() - i - 1,
        ids_name_resolved(ids_rest, tags_after, user_id, refs, i + 1),
        distinct_i32s(ids_rest),
        tags_wf(tags_after, next),
        has_tag_named(tags_after, user_id, ref_name(refs[i])),
        t == tag_named_id(tags_after, user_id, ref_name(refs[i])),
        forall|k: int, l: int|
            i <= k < l < refs.len() ==> ref_name(#[trigger] refs[k]) != ref_name(#[trigger] refs[l]),
    ensures
        distinct_i32s(seq![t] + ids_rest),
{
    let ids = seq![t] + ids_rest;
    assert forall|k: int, l: int| 0 <= k < l < ids.len() implies ids[k] != ids[l] by {
        if k == 0 {
            assert(ids[0] == t);
            assert(ids[l] == ids_rest[l - 1]);
            lemma_ids_name_resolved_index(ids_rest, tags_after, user_id, refs, i + 1, l - 1);
            assert((i + 1) + (l - 1) == i + l);
            assert(ref_name(refs[i]) != ref_name(refs[i + l]));
            lemma_named_ids_differ(
                tags_after,
                user_id,
                ref_name(refs[i]),
                ref_name(refs[i + l]),
                next,
            );
        } else {
            assert(ids[k] == ids_rest[k - 1]);
            assert(ids[l] == ids_rest[l - 1]);
        }
    }
}

/// Two distinct names resolve to distinct tag ids: with names unique per
/// user, the named rows differ, and with ids unique so do their ids.
pub proof fn lemma_named_ids_differ(tags: Seq<Tag>, user_id: i32, a: Seq<char>, b: Seq<char>, next: i32)
    requires
        tags_wf(tags, next),
        has_tag_named(tags, user_id, a),
        has_tag_named(tags, user_id, b),
        a != b,
    ensures
        tag_named_id(tags, user_id, a) != tag_named_id(tags, user_id, b),
{
    let i = choose|i: int| 0 <= i < tags.len() && tags[i].user_id == user_id && tags[i].name@ == a;
    let j = choose|j: int| 0 <= j < tags.len() && tags[j].user_id == user_id && tags[j].name@ == b;
    if i < j {
        assert(tags[i].id != tags[j].id);
    } else {
        assert(i != j);
        assert(tags[j].id != tags[i].id);
    }
}

/// Resolving a list of pairwise-distinct tag names always succeeds: each
/// name resolves to (or creates) exactly one tag of the user, the
/// resolved ids are one per name and pairwise distinct, the tag table
/// only grows, and it stays well formed. One join row per resolved id
/// then follows from the transaction write's contract.
pub proof fn lemma_distinct_names_resolve(
    tags: Seq<Tag>,
    user_id: i32,
    refs: Seq<TagReference>,
    i: int,
    next: i32,
)
    requires
        tags_wf(tags, next),
        0 <= i <= refs.len(),
        forall|k: int| i <= k < refs.len() ==> (#[trigger] refs[k]) is Name,
        forall|k: int, l: int|
            i <= k < l < refs.len() ==> ref_name(#[trigger] refs[k]) != ref_name(#[trigger] refs[l]),
        next + (refs.len() - i) <= i32::MAX,
    ensures
        resolve_tags_from(tags, user_id, refs, i, next) matches Some(pr) && {
            &&& pr.1.len() == refs.len() - i
            &&& ids_name_resolved(pr.1, pr.0, user_id, refs, i)
            &&& distinct_i32s(pr.1)
            &&& pr.0.len() >= tags.len()
            &&& forall|k: int| 0 <= k < tags.len() ==> #[trigger] pr.0[k] == tags[k]
            &&& tags_wf(pr.0, (next + (pr.0.len() - tags.len())) as i32)
        },
    decreases refs.len() - i,
{
    if i >= refs.len() {
        assert(resolve_tags_from(tags, user_id, refs, i, next) == Some(
            (tags, Seq::<i32>::empty()),
        ));
    } else {
        match refs[i] {
            TagReference::Id(_) => {
                assert(refs[i] is Name);
            },
            TagReference::Name(n) => {
                if has_tag_named(tags, user_id, n@) {
                    lemma_distinct_names_resolve(tags, user_id, refs, i + 1, next);
                    let pr1 = resolve_tags_from(tags, user_id, refs, i + 1, next).unwrap();
                    let t = tag_named_id(tags, user_id, n@);
                    assert(resolve_tags_from(tags, user_id, refs, i, next) == Some(
                        (pr1.0, seq![t] + pr1.1),
                    ));
                    let nxt_after = (next + (pr1.0.len() - tags.len())) as i32;
                    let idx = choose|idx: int|
                        0 <= idx < tags.len() && tags[idx].user_id == user_id && tags[idx].name@
                            == n@;
                    assert(pr1.0[idx] == tags[idx]);
                    assert(has_tag_named(pr1.0, user_id, n@));
                    crate::tags::lemma_tag_named_id_agrees(pr1.0, user_id, n@, idx, nxt_after);
                    crate::tags::lemma_tag_named_id_agrees(tags, user_id, n@, idx, next);
                    assert(t == tag_named_id(pr1.0, user_id, ref_name(refs[i])));
                    lemma_resolve_step_prepend(pr1.1, pr1.0, user_id, refs, i, t);
                    lemma_resolve_step_distinct(pr1.1, pr1.0, user_id, refs, i, t, nxt_after);
                } else {
                    let fresh = Tag { id: next, name: n, user_id };
                    let tags2 = tags.push(fresh);
                    lemma_tags_push_wf(tags, next, fresh);
                    lemma_distinct_names_resolve(tags2, user_id, refs, i + 1, (next + 1) as i32);
                    let pr1 = resolve_tags_from(tags2, user_id, refs, i + 1, (next + 1) as i32)
                        .unwrap();
                    assert(resolve_tags_from(tags, user_id, refs, i, next) == Some(
                        (pr1.0, seq![next] + pr1.1),
                    ));
                    let nxt_after = ((next + 1) + (pr1.0.len() - tags2.len())) as i32;
                    assert(tags2[tags.len() as int] == fresh);
                    assert(pr1.0[tags.len() as int] == fresh);
                    assert(has_tag_named(pr1.0, user_id, n@));
                    crate::tags::lemma_tag_named_id_agrees(
                        pr1.0,
                        user_id,
                        n@,
                        tags.len() as int,
                        nxt_after,
                    );
                    assert(next == tag_named_id(pr1.0, user_id, ref_name(refs[i])));
                    lemma_resolve_step_prepend(pr1.1, pr1.0, user_id, refs, i, next);
                    lemma_resolve_step_distinct(pr1.1, pr1.0, user_id, refs, i, next, nxt_after);
                    assert forall|k: int| 0 <= k < tags.len() implies #[trigger] pr1.0[k]
                        == tags[k] by {
                        assert(pr1.0[k] == tags2[k]);
                    }
                    assert(nxt_after == (next + (pr1.0.len() - tags.len())) as i32);
                                }
            },
        }
    }
}

} // verus!
