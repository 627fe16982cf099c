//! Order-management ledger: the engine's own outstanding orders, held in
//! four buckets — buy or sell side, active or pending status — each keyed
//! by order id, with insert, remove and lookup per bucket, and a
//! net-inventory computation over the two active buckets only.

use vstd::prelude::*;

verus! {

/// One of the engine's own orders. Prices are integer ticks and quantities
/// integer quantity units, at the scale the calling layer chose.
#[derive(Clone, Debug, PartialEq)]
pub struct Order {
    /// Unique within the bucket that holds the order.
    pub id: String,
    pub price: u64,
    pub qty: u32,
    /// Exchange-specific position slot.
    pub position_idx: u8,
    pub created_time: i32,
    pub updated_time: i32,
}

/// Selects a side, and carries either a whole order (for inserts) or a bare
/// order id (for removals and lookups).
#[derive(Clone, Debug)]
pub enum OrderPosition {
    BuySide(Order),
    SellSide(Order),
    BuySideId(String),
    SellSideId(String),
}

/// Wraps a side selector with the order's lifecycle status, picking one of
/// the ledger's four buckets.
#[derive(Clone, Debug)]
pub enum OrderStatus {
    Pending(OrderPosition),
    Active(OrderPosition),
}

/// What `handle_mapping` hands back: a read-only snapshot of the selected
/// bucket, paired with the payload the selector carried. The ledger never
/// hands out a live handle to a bucket.
#[derive(Debug)]
pub enum AltReturn {
    SomeOrder((Vec<Order>, Order)),
    SomeOrderId((Vec<Order>, String)),
}

/// How a ledger query can fail.
#[derive(Clone, Copy, Debug, PartialEq, Eq, Structural)]
pub enum OmsError {
    /// A lookup named an id with no order in the selected bucket.
    OrderNotFound,
}

/// The ledger itself: four independent buckets. An id is unique within each
/// bucket; keeping an id out of two different buckets is the caller's
/// convention, which the ledger does not police.
#[derive(Debug, PartialEq)]
pub struct Oms {
    pub sell_side_orders_active: Vec<Order>,
    pub sell_side_orders_pending: Vec<Order>,
    pub buy_side_orders_active: Vec<Order>,
    pub buy_side_orders_pending: Vec<Order>,
}

/// Abstract state of the ledger: the four buckets as sequences.
pub struct OmsView {
    pub sell_side_orders_active: Seq<Order>,
    pub sell_side_orders_pending: Seq<Order>,
    pub buy_side_orders_active: Seq<Order>,
    pub buy_side_orders_pending: Seq<Order>,
}

impl View for Oms {
    type V = OmsView;

    open spec fn view(&self) -> OmsView {
        OmsView {
            sell_side_orders_active: self.sell_side_orders_active@,
            sell_side_orders_pending: self.sell_side_orders_pending@,
            buy_side_orders_active: self.buy_side_orders_active@,
            buy_side_orders_pending: self.buy_side_orders_pending@,
        }
    }
}

/// Every order in the bucket carries a distinct id.
pub open spec fn ids_unique(s: Seq<Order>) -> bool {
    forall|i: int, j: int| 0 <= i < j < s.len() ==> s[i].id@ != s[j].id@
}

/// The first order carrying `id` in the bucket, if any; with unique ids,
/// the only one.
pub open spec fn find_order(s: Seq<Order>, id: Seq<char>) -> Option<Order>
    decreases s.len(),
{
    if s.len() == 0 {
        None
    } else if s[0].id@ == id {
        Some(s[0])
    } else {
        find_order(s.drop_first(), id)
    }
}

/// Insert-or-replace keyed by id: an order already carrying the new order's
/// id is overwritten in place (last write wins, no merge); otherwise the
/// new order is appended.
pub open spec fn bucket_add(s: Seq<Order>, o: Order) -> Seq<Order>
    decreases s.len(),
{
    if s.len() == 0 {
        seq![o]
    } else if s[0].id@ == o.id@ {
        seq![o] + s.drop_first()
    } else {
        seq![s[0]] + bucket_add(s.drop_first(), o)
    }
}

/// Removal keyed by id: drops the order carrying `id` if one is there, and
/// leaves the bucket unchanged otherwise — removing an absent id is a
/// no-op, not an error.
pub open spec fn bucket_remove(s: Seq<Order>, id: Seq<char>) -> Seq<Order>
    decreases s.len(),
{
    if s.len() == 0 {
        s
    } else if s[0].id@ == id {
        s.drop_first()
    } else {
        seq![s[0]] + bucket_remove(s.drop_first(), id)
    }
}

/// Total quantity resting in a bucket: the sum of its orders' quantities.
pub open spec fn sum_qty(s: Seq<Order>) -> int
    decreases s.len(),
{
    if s.len() == 0 {
        0
    } else {
        s[0].qty + sum_qty(s.drop_first())
    }
}

/// Whether the selector names the buy side.
pub open spec fn is_buy(ov: OrderStatus) -> bool {
    match position_of(ov) {
        OrderPosition::BuySide(_) => true,
        OrderPosition::SellSide(_) => false,
        OrderPosition::BuySideId(_) => true,
        OrderPosition::SellSideId(_) => false,
    }
}

/// Whether the selector names the active buckets.
pub open spec fn is_active(ov: OrderStatus) -> bool {
    match ov {
        OrderStatus::Pending(_) => false,
        OrderStatus::Active(_) => true,
    }
}

/// The side selector inside the status wrapper.
pub open spec fn position_of(ov: OrderStatus) -> OrderPosition {
    match ov {
        OrderStatus::Pending(p) => p,
        OrderStatus::Active(p) => p,
    }
}

/// True of the selector variants that carry a whole order.
pub open spec fn carries_order(ov: OrderStatus) -> bool {
    match position_of(ov) {
        OrderPosition::BuySide(_) => true,
        OrderPosition::SellSide(_) => true,
        OrderPosition::BuySideId(_) => false,
        OrderPosition::SellSideId(_) => false,
    }
}

/// True of the selector variants that carry a bare id.
pub open spec fn carries_id(ov: OrderStatus) -> bool {
    !carries_order(ov)
}

/// The order a selector carries (meaningful when `carries_order`).
pub open spec fn order_of(ov: OrderStatus) -> Order {
    match position_of(ov) {
        OrderPosition::BuySide(o) => o,
        OrderPosition::SellSide(o) => o,
        OrderPosition::BuySideId(_) => arbitrary(),
        OrderPosition::SellSideId(_) => arbitrary(),
    }
}

/// The id a selector carries (meaningful when `carries_id`).
pub open spec fn id_of(ov: OrderStatus) -> Seq<char> {
    match position_of(ov) {
        OrderPosition::BuySideId(id) => id@,
        OrderPosition::SellSideId(id) => id@,
        OrderPosition::BuySide(_) => arbitrary(),
        OrderPosition::SellSide(_) => arbitrary(),
    }
}

impl OmsView {
    /// Ids are unique within each of the four buckets.
    pub open spec fn wf(self) -> bool {
        &&& ids_unique(self.sell_side_orders_active)
        &&& ids_unique(self.sell_side_orders_pending)
        &&& ids_unique(self.buy_side_orders_active)
        &&& ids_unique(self.buy_side_orders_pending)
    }

    /// The bucket a side/status pair selects.
    pub open spec fn bucket(self, buy: bool, active: bool) -> Seq<Order> {
        if buy {
            if active {
                self.buy_side_orders_active
            } else {
                self.buy_side_orders_pending
            }
        } else {
            if active {
                self.sell_side_orders_active
            } else {
                self.sell_side_orders_pending
            }
        }
    }

    /// The ledger with the selected bucket replaced and the rest untouched.
    pub open spec fn with_bucket(self, buy: bool, active: bool, b: Seq<Order>) -> OmsView {
        if buy {
            if active {
                OmsView { buy_side_orders_active: b, ..self }
            } else {
                OmsView { buy_side_orders_pending: b, ..self }
            }
        } else {
            if active {
                OmsView { sell_side_orders_active: b, ..self }
            } else {
                OmsView { sell_side_orders_pending: b, ..self }
            }
        }
    }

    /// The state after inserting the carried order into the selected
    /// bucket, keyed by its id.
    pub open spec fn add(self, ov: OrderStatus) -> OmsView {
        self.with_bucket(
            is_buy(ov),
            is_active(ov),
            bucket_add(self.bucket(is_buy(ov), is_active(ov)), order_of(ov)),
        )
    }

    /// The state after removing the carried id from the selected bucket.
    pub open spec fn remove(self, ov: OrderStatus) -> OmsView {
        self.with_bucket(
            is_buy(ov),
            is_active(ov),
            bucket_remove(self.bucket(is_buy(ov), is_active(ov)), id_of(ov)),
        )
    }

    /// Net inventory implied by the orders that bear risk now: total active
    /// buy quantity minus total active sell quantity. Pending orders do not
    /// enter.
    pub open spec fn inventory_delta(self) -> int {
        sum_qty(self.buy_side_orders_active) - sum_qty(self.sell_side_orders_active)
    }

    /// The unsigned quantity to trade to move the inventory delta to
    /// `target`: the absolute difference of the two.
    pub open spec fn size_to_target(self, target: int) -> int {
        if self.inventory_delta() >= target {
            self.inventory_delta() - target
        } else {
            target - self.inventory_delta()
        }
    }
}

impl Oms {
    /// An empty ledger: all four buckets empty.
    pub fn new() -> (oms: Oms)
        ensures
            oms@.wf(),
            oms@.sell_side_orders_active.len() == 0,
            oms@.sell_side_orders_pending.len() == 0,
            oms@.buy_side_orders_active.len() == 0,
            oms@.buy_side_orders_pending.len() == 0,
    {
        Oms {
            sell_side_orders_active: Vec::new(),
            sell_side_orders_pending: Vec::new(),
            buy_side_orders_active: Vec::new(),
            buy_side_orders_pending: Vec::new(),
        }
    }

    /// Resolves a selector to its bucket and payload: a read-only snapshot
    /// of the bucket the side/status pair picks, paired with the order or
    /// id the selector carried.
    pub fn handle_mapping(&self, order_value: OrderStatus) -> (r: AltReturn)
        ensures
            match r {
                AltReturn::SomeOrder((snap, o)) => {
                    &&& carries_order(order_value)
                    &&& snap@ == self@.bucket(is_buy(order_value), is_active(order_value))
                    &&& o == order_of(order_value)
                },
                AltReturn::SomeOrderId((snap, id)) => {
                    &&& carries_id(order_value)
                    &&& snap@ == self@.bucket(is_buy(order_value), is_active(order_value))
                    &&& id@ == id_of(order_value)
                },
            },
    {
        match order_value {
            OrderStatus::Active(OrderPosition::BuySide(o)) => AltReturn::SomeOrder(
                (copy_orders(&self.buy_side_orders_active), o),
            ),
            OrderStatus::Active(OrderPosition::SellSide(o)) => AltReturn::SomeOrder(
                (copy_orders(&self.sell_side_orders_active), o),
            ),
            OrderStatus::Active(OrderPosition::BuySideId(id)) => AltReturn::SomeOrderId(
                (copy_orders(&self.buy_side_orders_active), id),
            ),
            OrderStatus::Active(OrderPosition::SellSideId(id)) => AltReturn::SomeOrderId(
                (copy_orders(&self.sell_side_orders_active), id),
            ),
            OrderStatus::Pending(OrderPosition::BuySide(o)) => AltReturn::SomeOrder(
                (copy_orders(&self.buy_side_orders_pending), o),
            ),
            OrderStatus::Pending(OrderPosition::SellSide(o)) => AltReturn::SomeOrder(
                (copy_orders(&self.sell_side_orders_pending), o),
            ),
            OrderStatus::Pending(OrderPosition::BuySideId(id)) => AltReturn::SomeOrderId(
                (copy_orders(&self.buy_side_orders_pending), id),
            ),
            OrderStatus::Pending(OrderPosition::SellSideId(id)) => AltReturn::SomeOrderId(
                (copy_orders(&self.sell_side_orders_pending), id),
            ),
        }
    }

    /// Inserts the carried order into the bucket its selector picks, keyed
    /// by the order's id; an order already there under that id is
    /// overwritten (last write wins). The id-carrying selector variants
    /// name nothing to insert and are excluded here.
    pub fn add_order(&mut self, order_value: OrderStatus)
        requires
            old(self)@.wf(),
            carries_order(order_value),
        ensures
            final(self)@.wf(),
            final(self)@ == old(self)@.add(order_value),
    {
        match order_value {
            OrderStatus::Active(OrderPosition::BuySide(o)) => {
                bucket_insert(&mut self.buy_side_orders_active, o);
            },
            OrderStatus::Active(OrderPosition::SellSide(o)) => {
                bucket_insert(&mut self.sell_side_orders_active, o);
            },
            OrderStatus::Pending(OrderPosition::BuySide(o)) => {
                bucket_insert(&mut self.buy_side_orders_pending, o);
            },
            OrderStatus::Pending(OrderPosition::SellSide(o)) => {
                bucket_insert(&mut self.sell_side_orders_pending, o);
            },
            _ => {
                proof {
                    assert(false);
                }
            },
        }
    }

    /// Removes the order under the carried id from the bucket its selector
    /// picks; removing an absent id leaves the ledger unchanged. The
    /// order-carrying selector variants name nothing to remove and are
    /// excluded here.
    pub fn delete_order(&mut self, order_value: OrderStatus)
        requires
            old(self)@.wf(),
            carries_id(order_value),
        ensures
            final(self)@.wf(),
            final(self)@ == old(self)@.remove(order_value),
    {
        match order_value {
            OrderStatus::Active(OrderPosition::BuySideId(id)) => {
                bucket_delete(&mut self.buy_side_orders_active, &id);
            },
            OrderStatus::Active(OrderPosition::SellSideId(id)) => {
                bucket_delete(&mut self.sell_side_orders_active, &id);
            },
            OrderStatus::Pending(OrderPosition::BuySideId(id)) => {
                bucket_delete(&mut self.buy_side_orders_pending, &id);
            },
            OrderStatus::Pending(OrderPosition::SellSideId(id)) => {
                bucket_delete(&mut self.sell_side_orders_pending, &id);
            },
            _ => {
                proof {
                    assert(false);
                }
            },
        }
    }

    /// A copy of the order under the carried id in the bucket its selector
    /// picks, or `OrderNotFound` exactly when no order there carries the
    /// id. The caller receives a copy, never a live handle.
    pub fn get_order(&self, order_value: OrderStatus) -> (r: Result<Order, OmsError>)
        requires
            carries_id(order_value),
        ensures
            match find_order(
                self@.bucket(is_buy(order_value), is_active(order_value)),
                id_of(order_value),
            ) {
                Some(o) => r == Ok::<Order, OmsError>(o),
                None => r == Err::<Order, OmsError>(OmsError::OrderNotFound),
            },
    {
        let found = match order_value {
            OrderStatus::Active(OrderPosition::BuySideId(id)) => bucket_get(
                &self.buy_side_orders_active,
                &id,
            ),
            OrderStatus::Active(OrderPosition::SellSideId(id)) => bucket_get(
                &self.sell_side_orders_active,
                &id,
            ),
            OrderStatus::Pending(OrderPosition::BuySideId(id)) => bucket_get(
                &self.buy_side_orders_pending,
                &id,
            ),
            OrderStatus::Pending(OrderPosition::SellSideId(id)) => bucket_get(
                &self.sell_side_orders_pending,
                &id,
            ),
            _ => {
                proof {
                    assert(false);
                }
                None
            },
        };
        match found {
            Some(o) => Ok(o),
            None => Err(OmsError::OrderNotFound),
        }
    }

    /// The net inventory the active orders imply: total active buy quantity
    /// minus total active sell quantity. Pending buckets do not enter.
    pub fn get_inventory_delta(&self) -> (r: i128)
        ensures
            r as int == self@.inventory_delta(),
    {
        let buy = sum_bucket_qty(&self.buy_side_orders_active);
        let sell = sum_bucket_qty(&self.sell_side_orders_active);
        buy as i128 - sell as i128
    }

    /// The unsigned quantity that must be traded to bring the inventory
    /// delta to `target_delta`: the absolute difference between the current
    /// delta and the target.
    pub fn get_size_to_target(&self, target_delta: i128) -> (r: u128)
        ensures
            r as int == self@.size_to_target(target_delta as int),
    {
        let delta = self.get_inventory_delta();
        if delta >= target_delta {
            if target_delta >= 0 {
                (delta - target_delta) as u128
            } else {
                let mag = ((-(target_delta + 1)) as u128) + 1;
                if delta >= 0 {
                    (delta as u128) + mag
                } else {
                    mag - (((-(delta + 1)) as u128) + 1)
                }
            }
        } else {
            if delta >= 0 {
                (target_delta - delta) as u128
            } else {
                let magd = ((-(delta + 1)) as u128) + 1;
                if target_delta >= 0 {
                    (target_delta as u128) + magd
                } else {
                    magd - (((-(target_delta + 1)) as u128) + 1)
                }
            }
        }
    }
}

/// Law: the inventory delta is a function of the two active buckets alone —
/// pending orders of any quantity cannot affect it.
pub proof fn lemma_delta_ignores_pending(a: OmsView, b: OmsView)
    requires
        a.buy_side_orders_active == b.buy_side_orders_active,
        a.sell_side_orders_active == b.sell_side_orders_active,
    ensures
        a.inventory_delta() == b.inventory_delta(),
{
}

/// A bucket's total quantity is bounded by its order count times the
/// largest quantity one order can hold, and is never negative.
proof fn lemma_sum_qty_bound(s: Seq<Order>)
    ensures
        0 <= sum_qty(s) <= s.len() * 0xffff_ffff,
    decreases s.len(),
{
    if s.len() > 0 {
        lemma_sum_qty_bound(s.drop_first());
    }
}

/// An exact duplicate of one order; the copy equals the original.
fn clone_order(o: &Order) -> (r: Order)
    ensures
        r == *o,
{
    Order {
        id: o.id.clone(),
        price: o.price,
        qty: o.qty,
        position_idx: o.position_idx,
        created_time: o.created_time,
        updated_time: o.updated_time,
    }
}

/// An element-wise copy of one bucket.
fn copy_orders(v: &Vec<Order>) -> (r: Vec<Order>)
    ensures
        r@ == v@,
{
    let mut r: Vec<Order> = Vec::new();
    let mut i: usize = 0;
    while i < v.len()
        invariant
            0 <= i <= v.len(),
            r@ =~= v@.take(i as int),
        decreases v.len() - i,
    {
        r.push(clone_order(&v[i]));
        i = i + 1;
    }
    proof {
        assert(r@ =~= v@);
    }
    r
}

/// Where `bucket_add` overwrites: when the order at index `i` is the first
/// to carry the new order's id, the add is an in-place update at `i`.
proof fn lemma_bucket_add_is_update(s: Seq<Order>, o: Order, i: int)
    requires
        0 <= i < s.len(),
        forall|k: int| 0 <= k < i ==> s[k].id@ != o.id@,
        s[i].id@ == o.id@,
    ensures
        bucket_add(s, o) == s.update(i, o),
    decreases i,
{
    if i == 0 {
        assert(bucket_add(s, o) =~= s.update(0, o));
    } else {
        assert(s[0].id@ != o.id@);
        lemma_bucket_add_is_update(s.drop_first(), o, i - 1);
        assert(bucket_add(s, o) =~= s.update(i, o));
    }
}

/// Where `bucket_add` appends: when no order in the bucket carries the new
/// order's id, the add is a push at the end.
proof fn lemma_bucket_add_is_push(s: Seq<Order>, o: Order)
    requires
        forall|k: int| 0 <= k < s.len() ==> s[k].id@ != o.id@,
    ensures
        bucket_add(s, o) == s.push(o),
    decreases s.len(),
{
    if s.len() == 0 {
        assert(bucket_add(s, o) =~= s.push(o));
    } else {
        assert(s[0].id@ != o.id@);
        lemma_bucket_add_is_push(s.drop_first(), o);
        assert(bucket_add(s, o) =~= s.push(o));
    }
}

/// Where `bucket_remove` removes: when the order at index `i` is the first
/// to carry the id, the removal drops exactly that position.
proof fn lemma_bucket_remove_is_remove(s: Seq<Order>, id: Seq<char>, i: int)
    requires
        0 <= i < s.len(),
        forall|k: int| 0 <= k < i ==> s[k].id@ != id,
        s[i].id@ == id,
    ensures
        bucket_remove(s, id) == s.remove(i),
    decreases i,
{
    if i == 0 {
        assert(bucket_remove(s, id) =~= s.remove(0));
    } else {
        assert(s[0].id@ != id);
        lemma_bucket_remove_is_remove(s.drop_first(), id, i - 1);
        assert(bucket_remove(s, id) =~= s.remove(i));
    }
}

/// Law: removing an id that no order in the bucket carries is a no-op.
pub proof fn lemma_bucket_remove_absent(s: Seq<Order>, id: Seq<char>)
    requires
        forall|k: int| 0 <= k < s.len() ==> s[k].id@ != id,
    ensures
        bucket_remove(s, id) == s,
    decreases s.len(),
{
    if s.len() > 0 {
        assert(s[0].id@ != id);
        lemma_bucket_remove_absent(s.drop_first(), id);
        assert(bucket_remove(s, id) =~= s);
    }
}

/// Insert-or-replace of one order in a bucket, keyed by its id.
fn bucket_insert(v: &mut Vec<Order>, o: Order)
    requires
        ids_unique(old(v)@),
    ensures
        final(v)@ == bucket_add(old(v)@, o),
        ids_unique(final(v)@),
{
    let ghost s0 = v@;
    let mut i: usize = 0;
    while i < v.len() && !(v[i].id == o.id)
        invariant
            0 <= i <= v.len(),
            v@ == s0,
            ids_unique(s0),
            forall|k: int| 0 <= k < i ==> s0[k].id@ != o.id@,
        decreases v.len() - i,
    {
        i = i + 1;
    }
    if i < v.len() {
        proof {
            lemma_bucket_add_is_update(s0, o, i as int);
        }
        v[i] = o;
        assert(ids_unique(v@)) by {
            assert(forall|k: int| 0 <= k < v@.len() && k != i ==> v@[k] == s0[k]);
            assert(v@[i as int].id@ == s0[i as int].id@);
        }
    } else {
        proof {
            lemma_bucket_add_is_push(s0, o);
        }
        v.push(o);
        assert(ids_unique(v@)) by {
            assert(forall|k: int| 0 <= k < s0.len() ==> v@[k] == s0[k]);
            assert(v@[s0.len() as int] == o);
        }
    }
}

/// Removal of one order from a bucket by id; absent ids are a no-op.
fn bucket_delete(v: &mut Vec<Order>, id: &String)
    requires
        ids_unique(old(v)@),
    ensures
        final(v)@ == bucket_remove(old(v)@, id@),
        ids_unique(final(v)@),
{
    let ghost s0 = v@;
    let mut i: usize = 0;
    while i < v.len() && !(v[i].id == *id)
        invariant
            0 <= i <= v.len(),
            v@ == s0,
            ids_unique(s0),
            forall|k: int| 0 <= k < i ==> s0[k].id@ != id@,
        decreases v.len() - i,
    {
        i = i + 1;
    }
    if i < v.len() {
        proof {
            lemma_bucket_remove_is_remove(s0, id@, i as int);
        }
        v.remove(i);
        assert(ids_unique(v@)) by {
            assert(forall|k: int| 0 <= k < i ==> v@[k] == s0[k]);
            assert(forall|k: int| i <= k < v@.len() ==> v@[k] == s0[k + 1]);
        }
    } else {
        proof {
            lemma_bucket_remove_absent(s0, id@);
        }
    }
}

/// A copy of the order carrying `id` in the bucket, if any.
fn bucket_get(v: &Vec<Order>, id: &String) -> (r: Option<Order>)
    ensures
        r == find_order(v@, id@),
{
    let mut i: usize = 0;
    proof {
        assert(v@.skip(0) =~= v@);
    }
    while i < v.len() && !(v[i].id == *id)
        invariant
            0 <= i <= v.len(),
            find_order(v@, id@) == find_order(v@.skip(i as int), id@),
            i < v.len() ==> v@.skip(i as int)[0] == v@[i as int],
        decreases v.len() - i,
    {
        proof {
            assert(v@.skip(i as int).drop_first() =~= v@.skip(i as int + 1));
        }
        i = i + 1;
        proof {
            if i < v@.len() {
                assert(v@.skip(i as int)[0] == v@[i as int]);
            }
        }
    }
    if i < v.len() {
        proof {
            assert(v@.skip(i as int)[0] == v@[i as int]);
        }
        Some(clone_order(&v[i]))
    } else {
        proof {
            assert(v@.skip(i as int) =~= Seq::<Order>::empty());
        }
        None
    }
}

/// Sums the quantities resting in one bucket. The total also fits well
/// inside the signed range the delta is computed in.
fn sum_bucket_qty(v: &Vec<Order>) -> (total: u128)
    ensures
        total as int == sum_qty(v@),
        total <= 0xffff_ffff_ffff_ffff * 0xffff_ffffu128,
{
    let mut i: usize = v.len();
    let mut total: u128 = 0;
    proof {
        assert(v@.skip(v@.len() as int) =~= Seq::<Order>::empty());
    }
    while i > 0
        invariant
            0 <= i <= v.len(),
            total as int == sum_qty(v@.skip(i as int)),
        decreases i,
    {
        i = i - 1;
        proof {
            assert(v@.skip(i as int).drop_first() =~= v@.skip(i as int + 1));
            lemma_sum_qty_bound(v@.skip(i as int));
        }
        total = total + v[i].qty as u128;
    }
    proof {
        assert(v@.skip(0) =~= v@);
        lemma_sum_qty_bound(v@);
    }
    total
}

} // verus!
