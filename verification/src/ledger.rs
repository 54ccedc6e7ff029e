//! Payment settlement ledger: pricing, revenue-split purchases and
//! recurring billing.
//!
//! The ledger accepts any application identifier without consulting the
//! lifecycle registry; the two components are correlated only by that
//! number, and reconciling them is the environment's business. Money
//! moves through an external token-transfer service: an operation
//! validates, commits all of its local state, and only then returns the
//! transfers the environment must execute. If a transfer fails, the
//! environment discards the whole operation's effects, so no partial
//! mutation is ever observable.

use vstd::arithmetic::div_mod::{
    lemma_div_is_ordered, lemma_div_multiples_vanish, lemma_div_pos_is_pos,
};
use vstd::prelude::*;

use crate::assoc::{
    assoc_lookup, assoc_unique, lemma_assoc_lookup_found, lemma_assoc_lookup_miss,
    lemma_assoc_lookup_push_other, lemma_assoc_lookup_update_other,
};

verus! {

/// Platform fee in basis points: 10% of every purchase.
pub const PLATFORM_FEE_BPS: u64 = 1000;

/// Basis-point denominator.
pub const BPS_DENOMINATOR: u64 = 10000;

/// The platform's cut of a purchase: `price * 1000 / 10000`, integer
/// division truncating toward zero, so the sub-unit remainder stays with
/// the developer.
pub open spec fn spec_platform_fee(price: u64) -> u64 {
    ((price as int) * (PLATFORM_FEE_BPS as int) / (BPS_DENOMINATOR as int)) as u64
}

/// The developer's share: whatever the fee leaves of the price.
pub open spec fn spec_developer_share(price: u64) -> u64 {
    (price - spec_platform_fee(price)) as u64
}

/// Law: for every price the fee is at most the price, and fee and share
/// sum back to the price exactly: no unit is lost or duplicated by the
/// split, whether or not the price divides evenly.
pub proof fn lemma_fee_split(price: u64)
    ensures
        spec_platform_fee(price) <= price,
        spec_platform_fee(price) + spec_developer_share(price) == price,
{
    let p = price as int;
    let num = p * (PLATFORM_FEE_BPS as int);
    lemma_div_pos_is_pos(num, BPS_DENOMINATOR as int);
    lemma_div_is_ordered(num, p * (BPS_DENOMINATOR as int), BPS_DENOMINATOR as int);
    lemma_div_multiples_vanish(p, BPS_DENOMINATOR as int);
    assert(0 <= num / (BPS_DENOMINATOR as int) <= p);
}

/// Computes the platform's cut of a purchase.
pub fn platform_fee(price_usdc: u64) -> (r: u64)
    ensures
        r == spec_platform_fee(price_usdc),
        r <= price_usdc,
{
    proof {
        lemma_fee_split(price_usdc);
    }
    let numerator: u128 = (price_usdc as u128) * (PLATFORM_FEE_BPS as u128);
    (numerator / (BPS_DENOMINATOR as u128)) as u64
}

/// Commercial terms one developer set for one app.
#[derive(Clone, Copy, PartialEq, Eq, Structural, Debug)]
pub struct PricingRecord {
    pub app_id: u64,
    pub price_usdc: u64,
    pub developer: u64,
    pub is_subscription: bool,
    pub interval_days: u64,
    pub is_active: bool,
}

/// Accumulated payments for one app in one billing period.
#[derive(Clone, Copy, PartialEq, Eq, Structural, Debug)]
pub struct BillingEntry {
    pub app_id: u64,
    pub period: u64,
    pub amount: u64,
}

/// One token transfer the environment must execute on the ledger's
/// behalf; `from` must have pre-authorized the marketplace to move
/// `amount`.
#[derive(Clone, Copy, PartialEq, Eq, Structural, Debug)]
pub struct TransferRequest {
    pub from: u64,
    pub to: u64,
    pub amount: u64,
}

/// The two transfers a successful purchase owes: the developer's share
/// and the platform's fee, both drawn from the buyer.
#[derive(Clone, Copy, PartialEq, Eq, Structural, Debug)]
pub struct PurchaseSettlement {
    pub developer_payment: TransferRequest,
    pub platform_payment: TransferRequest,
}

/// Why a ledger operation was refused.
#[derive(Clone, Copy, PartialEq, Eq, Structural, Debug)]
pub enum PaymentError {
    Unauthorized,
    InvalidPrice,
    InvalidAppId,
    AppNotForSale,
    InsufficientPayment,
    TransferFailed,
    AlreadyPurchased,
    InvalidPeriod,
}

/// Immutable record of a committed ledger transition. An event is
/// appended if and only if the operation succeeded.
#[derive(Clone, Copy, PartialEq, Eq, Structural, Debug)]
pub enum PaymentEvent {
    AppPriceSet {
        app_id: u64,
        developer: u64,
        price_usdc: u64,
        is_subscription: bool,
        interval_days: u64,
    },
    AppPurchased {
        app_id: u64,
        buyer: u64,
        developer: u64,
        total_amount: u64,
        developer_share: u64,
        platform_fee: u64,
        timestamp: u64,
    },
    BillingPayment { app_id: u64, payer: u64, amount: u64, period: u64, timestamp: u64 },
}

/// What an event contributed to the platform's running revenue.
pub open spec fn platform_part(e: PaymentEvent) -> int {
    match e {
        PaymentEvent::AppPriceSet { .. } => 0,
        PaymentEvent::AppPurchased { platform_fee, .. } => platform_fee as int,
        PaymentEvent::BillingPayment { amount, .. } => amount as int,
    }
}

/// What an event contributed to the developers' running payouts.
pub open spec fn payout_part(e: PaymentEvent) -> int {
    match e {
        PaymentEvent::AppPriceSet { .. } => 0,
        PaymentEvent::AppPurchased { developer_share, .. } => developer_share as int,
        PaymentEvent::BillingPayment { .. } => 0,
    }
}

/// Total platform revenue across a run of events.
pub open spec fn sum_platform(events: Seq<PaymentEvent>) -> int
    decreases events.len(),
{
    if events.len() == 0 {
        0
    } else {
        sum_platform(events.drop_last()) + platform_part(events.last())
    }
}

/// Total developer payouts across a run of events.
pub open spec fn sum_payouts(events: Seq<PaymentEvent>) -> int
    decreases events.len(),
{
    if events.len() == 0 {
        0
    } else {
        sum_payouts(events.drop_last()) + payout_part(events.last())
    }
}

proof fn lemma_sums_push(s: Seq<PaymentEvent>, e: PaymentEvent)
    ensures
        sum_platform(s.push(e)) == sum_platform(s) + platform_part(e),
        sum_payouts(s.push(e)) == sum_payouts(s) + payout_part(e),
{
    assert(s.push(e).drop_last() =~= s);
    assert(s.push(e).last() == e);
}

/// Key extractor for the pricing table.
pub open spec fn pricing_key() -> spec_fn(PricingRecord) -> u64 {
    |p: PricingRecord| p.app_id
}

/// Key extractor for the billing table.
pub open spec fn billing_key() -> spec_fn(BillingEntry) -> (u64, u64) {
    |b: BillingEntry| (b.app_id, b.period)
}

/// A stored pricing record refused the zero arguments its operation
/// rejects, and names a real developer.
pub open spec fn pricing_record_valid(p: PricingRecord) -> bool {
    &&& p.app_id != 0
    &&& p.price_usdc != 0
    &&& p.developer != 0
    &&& (p.is_subscription ==> p.interval_days != 0)
}

/// A stored billing entry names a real app and period.
pub open spec fn billing_entry_valid(b: BillingEntry) -> bool {
    &&& b.app_id != 0
    &&& b.period != 0
}

/// No purchase pair occurs twice.
pub open spec fn nodup_pairs(s: Seq<(u64, u64)>) -> bool {
    forall|i: int, j: int| 0 <= i < j < s.len() ==> s[i] != s[j]
}

/// The payment settlement ledger.
#[derive(Clone)]
pub struct PaymentLedger {
    pub owner: u64,
    pub treasury: u64,
    pub token: u64,
    pub pricing: Vec<PricingRecord>,
    pub purchases: Vec<(u64, u64)>,
    pub billing: Vec<BillingEntry>,
    pub total_platform_revenue: u64,
    pub total_developer_payouts: u64,
    pub events: Vec<PaymentEvent>,
}

impl PaymentLedger {
    /// The pricing record stored for `app_id`, if any.
    pub open spec fn pricing_of(self, app_id: u64) -> Option<PricingRecord> {
        assoc_lookup(self.pricing@, pricing_key(), app_id)
    }

    /// The current price of `app_id`, 0 when it was never priced.
    pub open spec fn price_of(self, app_id: u64) -> u64 {
        match self.pricing_of(app_id) {
            Some(p) => p.price_usdc,
            None => 0,
        }
    }

    /// The developer recorded for `app_id`'s pricing, 0 when unpriced.
    pub open spec fn developer_of(self, app_id: u64) -> u64 {
        match self.pricing_of(app_id) {
            Some(p) => p.developer,
            None => 0,
        }
    }

    /// A purchase can succeed: the app is priced, the pricing is active
    /// and the price is not zero.
    pub open spec fn purchasable(self, app_id: u64) -> bool {
        match self.pricing_of(app_id) {
            Some(p) => p.is_active && p.price_usdc != 0,
            None => false,
        }
    }

    /// The pair (app, buyer) has a recorded purchase.
    pub open spec fn spec_has_purchased(self, app_id: u64, buyer: u64) -> bool {
        self.purchases@.contains((app_id, buyer))
    }

    /// What was paid so far toward (app, period); 0 when nothing was.
    pub open spec fn billing_of(self, app_id: u64, period: u64) -> u64 {
        match assoc_lookup(self.billing@, billing_key(), (app_id, period)) {
            Some(b) => b.amount,
            None => 0,
        }
    }

    /// Structural invariant: the keyed tables have unique keys and valid
    /// entries, no purchase pair repeats, and the two running totals
    /// equal the sums of the fee and share components of every committed
    /// event — revenue is accounted for exactly.
    pub open spec fn wf(self) -> bool {
        &&& self.owner != 0
        &&& self.treasury != 0
        &&& assoc_unique(self.pricing@, pricing_key())
        &&& forall|i: int|
            0 <= i < self.pricing@.len() ==> pricing_record_valid(#[trigger] self.pricing@[i])
        &&& assoc_unique(self.billing@, billing_key())
        &&& forall|i: int|
            0 <= i < self.billing@.len() ==> billing_entry_valid(#[trigger] self.billing@[i])
        &&& nodup_pairs(self.purchases@)
        &&& self.total_platform_revenue as int == sum_platform(self.events@)
        &&& self.total_developer_payouts as int == sum_payouts(self.events@)
    }

    /// Creates the ledger with the deploying account as owner, and the
    /// treasury and payment-token accounts fixed for its lifetime.
    pub fn initialize(deployer: u64, treasury: u64, token: u64) -> (r: PaymentLedger)
        requires
            deployer != 0,
            treasury != 0,
            token != 0,
        ensures
            r.wf(),
            r.owner == deployer,
            r.treasury == treasury,
            r.token == token,
            r.pricing@.len() == 0,
            r.purchases@.len() == 0,
            r.billing@.len() == 0,
            r.total_platform_revenue == 0,
            r.total_developer_payouts == 0,
            r.events@.len() == 0,
    {
        PaymentLedger {
            owner: deployer,
            treasury,
            token,
            pricing: Vec::new(),
            purchases: Vec::new(),
            billing: Vec::new(),
            total_platform_revenue: 0,
            total_developer_payouts: 0,
            events: Vec::new(),
        }
    }

    /// The slot holding `app_id`'s pricing, or `None` with the whole
    /// table scanned.
    fn find_pricing(&self, app_id: u64) -> (r: Option<usize>)
        ensures
            match r {
                Some(k) => {
                    &&& k < self.pricing@.len()
                    &&& self.pricing@[k as int].app_id == app_id
                    &&& forall|j: int|
                        0 <= j < k ==> (#[trigger] self.pricing@[j]).app_id != app_id
                    &&& self.pricing_of(app_id) == Some(self.pricing@[k as int])
                },
                None => self.pricing_of(app_id) == None::<PricingRecord>,
            },
    {
        let mut i: usize = 0;
        while i < self.pricing.len()
            invariant
                i <= self.pricing@.len(),
                forall|j: int| 0 <= j < i ==> (#[trigger] self.pricing@[j]).app_id != app_id,
            decreases self.pricing@.len() - i,
        {
            if self.pricing[i].app_id == app_id {
                proof {
                    lemma_assoc_lookup_found(self.pricing@, pricing_key(), i as int);
                }
                return Some(i);
            }
            i += 1;
        }
        proof {
            lemma_assoc_lookup_miss(self.pricing@, pricing_key(), app_id);
        }
        None
    }

    /// Sets or replaces the pricing for an app; the caller becomes the
    /// recorded developer. No cross-check against the lifecycle registry
    /// is made: the identifier spaces are reconciled off-ledger.
    pub fn set_app_price(
        &mut self,
        caller: u64,
        app_id: u64,
        price_usdc: u64,
        is_subscription: bool,
        interval_days: u64,
    ) -> (r: Result<(), PaymentError>)
        requires
            old(self).wf(),
            caller != 0,
        ensures
            final(self).wf(),
            r == Err::<(), PaymentError>(PaymentError::InvalidAppId) <==> app_id == 0,
            r == Err::<(), PaymentError>(PaymentError::InvalidPrice) <==> (app_id != 0 && (
            price_usdc == 0 || (is_subscription && interval_days == 0))),
            (r is Ok) <==> (app_id != 0 && price_usdc != 0 && !(is_subscription && interval_days
                == 0)),
            r is Err ==> *final(self) == *old(self),
            r is Ok ==> {
                &&& final(self).pricing_of(app_id) == Some(
                    (PricingRecord {
                        app_id,
                        price_usdc,
                        developer: caller,
                        is_subscription,
                        interval_days,
                        is_active: true,
                    }),
                )
                &&& forall|other: u64|
                    other != app_id ==> final(self).pricing_of(other) == old(self).pricing_of(
                        other,
                    )
                &&& final(self).purchases@ == old(self).purchases@
                &&& final(self).billing@ == old(self).billing@
                &&& final(self).total_platform_revenue == old(self).total_platform_revenue
                &&& final(self).total_developer_payouts == old(self).total_developer_payouts
                &&& final(self).owner == old(self).owner
                &&& final(self).treasury == old(self).treasury
                &&& final(self).token == old(self).token
                &&& final(self).events@ == old(self).events@.push(
                    (PaymentEvent::AppPriceSet {
                        app_id,
                        developer: caller,
                        price_usdc,
                        is_subscription,
                        interval_days,
                    }),
                )
            },
    {
        if app_id == 0 {
            return Err(PaymentError::InvalidAppId);
        }
        if price_usdc == 0 || (is_subscription && interval_days == 0) {
            return Err(PaymentError::InvalidPrice);
        }
        let record = PricingRecord {
            app_id,
            price_usdc,
            developer: caller,
            is_subscription,
            interval_days,
            is_active: true,
        };
        self.upsert_pricing(record);
        self.events.push(
            PaymentEvent::AppPriceSet {
                app_id,
                developer: caller,
                price_usdc,
                is_subscription,
                interval_days,
            },
        );
        proof {
            lemma_sums_push(
                old(self).events@,
                PaymentEvent::AppPriceSet {
                    app_id,
                    developer: caller,
                    price_usdc,
                    is_subscription,
                    interval_days,
                },
            );
        }
        Ok(())
    }

    /// Writes `record` over the slot holding its key, or appends it.
    fn upsert_pricing(&mut self, record: PricingRecord)
        requires
            assoc_unique(old(self).pricing@, pricing_key()),
            forall|i: int|
                0 <= i < old(self).pricing@.len() ==> pricing_record_valid(
                    #[trigger] old(self).pricing@[i],
                ),
            pricing_record_valid(record),
        ensures
            assoc_unique(final(self).pricing@, pricing_key()),
            forall|i: int|
                0 <= i < final(self).pricing@.len() ==> pricing_record_valid(
                    #[trigger] final(self).pricing@[i],
                ),
            final(self).pricing_of(record.app_id) == Some(record),
            forall|other: u64|
                other != record.app_id ==> final(self).pricing_of(other) == old(self).pricing_of(
                    other,
                ),
            final(self).purchases@ == old(self).purchases@,
            final(self).billing@ == old(self).billing@,
            final(self).total_platform_revenue == old(self).total_platform_revenue,
            final(self).total_developer_payouts == old(self).total_developer_payouts,
            final(self).owner == old(self).owner,
            final(self).treasury == old(self).treasury,
            final(self).token == old(self).token,
            final(self).events@ == old(self).events@,
    {
        let app_id = record.app_id;
        match self.find_pricing(app_id) {
            Some(k) => {
                self.pricing.set(k, record);
                proof {
                    let prev = old(self).pricing@;
                    let cur = self.pricing@;
                    assert(cur == prev.update(k as int, record));
                    assert forall|i: int, j: int| 0 <= i < j < cur.len() implies pricing_key()(
                        #[trigger] cur[i],
                    ) != pricing_key()(#[trigger] cur[j]) by {
                        assert(cur[i].app_id == prev[i].app_id);
                        assert(cur[j].app_id == prev[j].app_id);
                    }
                    assert forall|j: int| 0 <= j < k implies (#[trigger] cur[j]).app_id != app_id
                        by {
                        assert(cur[j] == prev[j]);
                    }
                    lemma_assoc_lookup_found(cur, pricing_key(), k as int);
                    assert forall|other: u64| other != app_id implies assoc_lookup(
                        cur,
                        pricing_key(),
                        other,
                    ) == assoc_lookup(prev, pricing_key(), other) by {
                        lemma_assoc_lookup_update_other(
                            prev,
                            pricing_key(),
                            k as int,
                            record,
                            other,
                        );
                    }
                }
            },
            None => {
                self.pricing.push(record);
                proof {
                    let prev = old(self).pricing@;
                    let cur = self.pricing@;
                    assert(forall|j: int|
                        0 <= j < prev.len() ==> (#[trigger] prev[j]).app_id != app_id) by {
                        lemma_assoc_lookup_miss_converse(prev, app_id);
                    }
                    assert forall|i: int, j: int| 0 <= i < j < cur.len() implies pricing_key()(
                        #[trigger] cur[i],
                    ) != pricing_key()(#[trigger] cur[j]) by {
                        if j < prev.len() {
                            assert(cur[i] == prev[i]);
                            assert(cur[j] == prev[j]);
                        } else {
                            assert(cur[i] == prev[i]);
                            assert(cur[j] == record);
                        }
                    }
                    assert forall|j: int| 0 <= j < prev.len() implies (#[trigger] cur[j]).app_id
                        != app_id by {
                        assert(cur[j] == prev[j]);
                    }
                    assert(cur[prev.len() as int] == record);
                    lemma_assoc_lookup_found(cur, pricing_key(), prev.len() as int);
                    assert forall|other: u64| other != app_id implies assoc_lookup(
                        cur,
                        pricing_key(),
                        other,
                    ) == assoc_lookup(prev, pricing_key(), other) by {
                        lemma_assoc_lookup_push_other(prev, pricing_key(), record, other);
                    }
                }
            },
        }
    }
    /// Replaces the price of an already-priced app: the recorded
    /// developer only. Subscription flag and interval are untouched.
    pub fn update_app_price(&mut self, caller: u64, app_id: u64, new_price_usdc: u64) -> (r:
        Result<(), PaymentError>)
        requires
            old(self).wf(),
        ensures
            final(self).wf(),
            r == Err::<(), PaymentError>(PaymentError::AppNotForSale) <==> !(old(self).pricing_of(
                app_id,
            ) matches Some(p) && p.is_active),
            r == Err::<(), PaymentError>(PaymentError::Unauthorized) <==> (old(self).pricing_of(
                app_id,
            ) matches Some(p) && p.is_active && p.developer != caller),
            r == Err::<(), PaymentError>(PaymentError::InvalidPrice) <==> (old(self).pricing_of(
                app_id,
            ) matches Some(p) && p.is_active && p.developer == caller && new_price_usdc == 0),
            (r is Ok) <==> (old(self).pricing_of(app_id) matches Some(p) && p.is_active
                && p.developer == caller && new_price_usdc != 0),
            r is Err ==> *final(self) == *old(self),
            r is Ok ==> {
                let prev = old(self).pricing_of(app_id)->Some_0;
                &&& final(self).pricing_of(app_id) == Some(
                    (PricingRecord { price_usdc: new_price_usdc, ..prev }),
                )
                &&& forall|other: u64|
                    other != app_id ==> final(self).pricing_of(other) == old(self).pricing_of(
                        other,
                    )
                &&& final(self).purchases@ == old(self).purchases@
                &&& final(self).billing@ == old(self).billing@
                &&& final(self).total_platform_revenue == old(self).total_platform_revenue
                &&& final(self).total_developer_payouts == old(self).total_developer_payouts
                &&& final(self).owner == old(self).owner
                &&& final(self).treasury == old(self).treasury
                &&& final(self).token == old(self).token
                &&& final(self).events@ == old(self).events@.push(
                    (PaymentEvent::AppPriceSet {
                        app_id,
                        developer: caller,
                        price_usdc: new_price_usdc,
                        is_subscription: prev.is_subscription,
                        interval_days: prev.interval_days,
                    }),
                )
            },
    {
        let found = self.find_pricing(app_id);
        match found {
            None => Err(PaymentError::AppNotForSale),
            Some(k) => {
                let record = self.pricing[k];
                if !record.is_active {
                    return Err(PaymentError::AppNotForSale);
                }
                if record.developer != caller {
                    return Err(PaymentError::Unauthorized);
                }
                if new_price_usdc == 0 {
                    return Err(PaymentError::InvalidPrice);
                }
                let updated = PricingRecord { price_usdc: new_price_usdc, ..record };
                self.upsert_pricing(updated);
                self.events.push(
                    PaymentEvent::AppPriceSet {
                        app_id,
                        developer: caller,
                        price_usdc: new_price_usdc,
                        is_subscription: record.is_subscription,
                        interval_days: record.interval_days,
                    },
                );
                proof {
                    lemma_sums_push(
                        old(self).events@,
                        PaymentEvent::AppPriceSet {
                            app_id,
                            developer: caller,
                            price_usdc: new_price_usdc,
                            is_subscription: record.is_subscription,
                            interval_days: record.interval_days,
                        },
                    );
                }
                Ok(())
            },
        }
    }

    /// Takes an app off sale: the recorded developer only. Purchases
    /// already made stay recorded; they are not reversed.
    pub fn deactivate_app_pricing(&mut self, caller: u64, app_id: u64) -> (r: Result<
        (),
        PaymentError,
    >)
        requires
            old(self).wf(),
        ensures
            final(self).wf(),
            r == Err::<(), PaymentError>(PaymentError::AppNotForSale) <==> !(old(self).pricing_of(
                app_id,
            ) matches Some(p) && p.is_active),
            r == Err::<(), PaymentError>(PaymentError::Unauthorized) <==> (old(self).pricing_of(
                app_id,
            ) matches Some(p) && p.is_active && p.developer != caller),
            (r is Ok) <==> (old(self).pricing_of(app_id) matches Some(p) && p.is_active
                && p.developer == caller),
            r is Err ==> *final(self) == *old(self),
            r is Ok ==> {
                let prev = old(self).pricing_of(app_id)->Some_0;
                &&& final(self).pricing_of(app_id) == Some(
                    (PricingRecord { is_active: false, ..prev }),
                )
                &&& !final(self).purchasable(app_id)
                &&& forall|other: u64|
                    other != app_id ==> final(self).pricing_of(other) == old(self).pricing_of(
                        other,
                    )
                &&& final(self).purchases@ == old(self).purchases@
                &&& final(self).billing@ == old(self).billing@
                &&& final(self).total_platform_revenue == old(self).total_platform_revenue
                &&& final(self).total_developer_payouts == old(self).total_developer_payouts
                &&& final(self).owner == old(self).owner
                &&& final(self).treasury == old(self).treasury
                &&& final(self).token == old(self).token
                &&& final(self).events@ == old(self).events@
            },
    {
        let found = self.find_pricing(app_id);
        match found {
            None => Err(PaymentError::AppNotForSale),
            Some(k) => {
                let record = self.pricing[k];
                if !record.is_active {
                    return Err(PaymentError::AppNotForSale);
                }
                if record.developer != caller {
                    return Err(PaymentError::Unauthorized);
                }
                let updated = PricingRecord { is_active: false, ..record };
                self.upsert_pricing(updated);
                Ok(())
            },
        }
    }

    /// The pair (app, buyer) has a recorded purchase.
    pub fn has_user_purchased(&self, app_id: u64, buyer: u64) -> (r: bool)
        ensures
            r == self.spec_has_purchased(app_id, buyer),
    {
        let mut i: usize = 0;
        while i < self.purchases.len()
            invariant
                i <= self.purchases@.len(),
                forall|j: int| 0 <= j < i ==> self.purchases@[j] != (app_id, buyer),
            decreases self.purchases@.len() - i,
        {
            let pair = self.purchases[i];
            if pair.0 == app_id && pair.1 == buyer {
                proof {
                    assert(self.purchases@[i as int] == (app_id, buyer));
                }
                return true;
            }
            i += 1;
        }
        false
    }

    /// Purchases an app for the calling buyer. Fails when the app is not
    /// actively priced, and when this buyer already bought this app — a
    /// retry after a confirmed success never re-charges. On success the
    /// purchase is recorded, both running totals grow by their exact
    /// component, and the two transfers the environment owes are
    /// returned: the developer's share and the platform's fee, summing
    /// exactly to the price.
    pub fn purchase_app(&mut self, buyer: u64, app_id: u64, now: u64) -> (r: Result<
        PurchaseSettlement,
        PaymentError,
    >)
        requires
            old(self).wf(),
            buyer != 0,
            (old(self).purchasable(app_id) && !old(self).spec_has_purchased(app_id, buyer)) ==> (
            old(self).total_platform_revenue + spec_platform_fee(old(self).price_of(app_id))
                <= u64::MAX && old(self).total_developer_payouts + spec_developer_share(
                old(self).price_of(app_id),
            ) <= u64::MAX),
        ensures
            final(self).wf(),
            r == Err::<PurchaseSettlement, PaymentError>(PaymentError::AppNotForSale) <==> !old(
                self,
            ).purchasable(app_id),
            r == Err::<PurchaseSettlement, PaymentError>(PaymentError::AlreadyPurchased) <==> (old(
                self,
            ).purchasable(app_id) && old(self).spec_has_purchased(app_id, buyer)),
            (r is Ok) <==> (old(self).purchasable(app_id) && !old(self).spec_has_purchased(
                app_id,
                buyer,
            )),
            r is Err ==> *final(self) == *old(self),
            r matches Ok(s) ==> {
                let price = old(self).price_of(app_id);
                let fee = spec_platform_fee(price);
                let share = spec_developer_share(price);
                &&& s.developer_payment == (TransferRequest {
                    from: buyer,
                    to: old(self).developer_of(app_id),
                    amount: share,
                })
                &&& s.platform_payment == (TransferRequest {
                    from: buyer,
                    to: old(self).treasury,
                    amount: fee,
                })
                &&& fee + share == price
                &&& final(self).purchases@ == old(self).purchases@.push((app_id, buyer))
                &&& final(self).spec_has_purchased(app_id, buyer)
                &&& final(self).total_platform_revenue == old(self).total_platform_revenue + fee
                &&& final(self).total_developer_payouts == old(self).total_developer_payouts
                    + share
                &&& final(self).pricing@ == old(self).pricing@
                &&& final(self).billing@ == old(self).billing@
                &&& final(self).owner == old(self).owner
                &&& final(self).treasury == old(self).treasury
                &&& final(self).token == old(self).token
                &&& final(self).events@ == old(self).events@.push(
                    (PaymentEvent::AppPurchased {
                        app_id,
                        buyer,
                        developer: old(self).developer_of(app_id),
                        total_amount: price,
                        developer_share: share,
                        platform_fee: fee,
                        timestamp: now,
                    }),
                )
            },
    {
        let found = self.find_pricing(app_id);
        match found {
            None => Err(PaymentError::AppNotForSale),
            Some(k) => {
                let record = self.pricing[k];
                if !record.is_active || record.price_usdc == 0 {
                    return Err(PaymentError::AppNotForSale);
                }
                if self.has_user_purchased(app_id, buyer) {
                    return Err(PaymentError::AlreadyPurchased);
                }
                proof {
                    lemma_fee_split(record.price_usdc);
                }
                let fee = platform_fee(record.price_usdc);
                let share = record.price_usdc - fee;
                self.purchases.push((app_id, buyer));
                self.total_platform_revenue = self.total_platform_revenue + fee;
                self.total_developer_payouts = self.total_developer_payouts + share;
                self.events.push(
                    PaymentEvent::AppPurchased {
                        app_id,
                        buyer,
                        developer: record.developer,
                        total_amount: record.price_usdc,
                        developer_share: share,
                        platform_fee: fee,
                        timestamp: now,
                    },
                );
                proof {
                    lemma_sums_push(
                        old(self).events@,
                        PaymentEvent::AppPurchased {
                            app_id,
                            buyer,
                            developer: record.developer,
                            total_amount: record.price_usdc,
                            developer_share: share,
                            platform_fee: fee,
                            timestamp: now,
                        },
                    );
                    assert forall|i: int, j: int|
                        0 <= i < j < self.purchases@.len() implies self.purchases@[i]
                        != self.purchases@[j] by {
                        if j == self.purchases@.len() - 1 {
                            assert(self.purchases@[i] == old(self).purchases@[i]);
                            assert(self.purchases@[j] == (app_id, buyer));
                            assert(!old(self).purchases@.contains((app_id, buyer)));
                        } else {
                            assert(self.purchases@[i] == old(self).purchases@[i]);
                            assert(self.purchases@[j] == old(self).purchases@[j]);
                        }
                    }
                    assert(self.purchases@[self.purchases@.len() - 1] == (app_id, buyer));
                }
                Ok(
                    PurchaseSettlement {
                        developer_payment: TransferRequest {
                            from: buyer,
                            to: record.developer,
                            amount: share,
                        },
                        platform_payment: TransferRequest {
                            from: buyer,
                            to: self.treasury,
                            amount: fee,
                        },
                    },
                )
            },
        }
    }

    /// The slot holding the billing entry for (app, period), or `None`
    /// with the whole table scanned.
    fn find_billing(&self, app_id: u64, period: u64) -> (r: Option<usize>)
        ensures
            match r {
                Some(k) => {
                    &&& k < self.billing@.len()
                    &&& self.billing@[k as int].app_id == app_id
                    &&& self.billing@[k as int].period == period
                    &&& assoc_lookup(self.billing@, billing_key(), (app_id, period)) == Some(
                        self.billing@[k as int],
                    )
                },
                None => assoc_lookup(self.billing@, billing_key(), (app_id, period))
                    == None::<BillingEntry>,
            },
    {
        let mut i: usize = 0;
        while i < self.billing.len()
            invariant
                i <= self.billing@.len(),
                forall|j: int|
                    0 <= j < i ==> !((#[trigger] self.billing@[j]).app_id == app_id
                        && self.billing@[j].period == period),
            decreases self.billing@.len() - i,
        {
            let entry = &self.billing[i];
            if entry.app_id == app_id && entry.period == period {
                proof {
                    assert(billing_key()(self.billing@[i as int]) == (app_id, period));
                    assert forall|j: int| 0 <= j < i implies billing_key()(
                        #[trigger] self.billing@[j],
                    ) != billing_key()(self.billing@[i as int]) by {}
                    lemma_assoc_lookup_found(self.billing@, billing_key(), i as int);
                }
                return Some(i);
            }
            i += 1;
        }
        proof {
            assert forall|j: int| 0 <= j < self.billing@.len() implies billing_key()(
                #[trigger] self.billing@[j],
            ) != (app_id, period) by {}
            lemma_assoc_lookup_miss(self.billing@, billing_key(), (app_id, period));
        }
        None
    }

    /// What was paid so far toward (app, period).
    pub fn get_billing_payment(&self, app_id: u64, period: u64) -> (r: u64)
        ensures
            r == self.billing_of(app_id, period),
    {
        match self.find_billing(app_id, period) {
            Some(k) => self.billing[k].amount,
            None => 0,
        }
    }

    /// Writes `entry` over the slot holding its key, or appends it.
    fn upsert_billing(&mut self, entry: BillingEntry)
        requires
            assoc_unique(old(self).billing@, billing_key()),
            forall|i: int|
                0 <= i < old(self).billing@.len() ==> billing_entry_valid(
                    #[trigger] old(self).billing@[i],
                ),
            billing_entry_valid(entry),
        ensures
            assoc_unique(final(self).billing@, billing_key()),
            forall|i: int|
                0 <= i < final(self).billing@.len() ==> billing_entry_valid(
                    #[trigger] final(self).billing@[i],
                ),
            assoc_lookup(final(self).billing@, billing_key(), (entry.app_id, entry.period))
                == Some(entry),
            forall|a2: u64, p2: u64|
                !(a2 == entry.app_id && p2 == entry.period) ==> assoc_lookup(
                    final(self).billing@,
                    billing_key(),
                    (a2, p2),
                ) == assoc_lookup(old(self).billing@, billing_key(), (a2, p2)),
            final(self).pricing@ == old(self).pricing@,
            final(self).purchases@ == old(self).purchases@,
            final(self).total_platform_revenue == old(self).total_platform_revenue,
            final(self).total_developer_payouts == old(self).total_developer_payouts,
            final(self).owner == old(self).owner,
            final(self).treasury == old(self).treasury,
            final(self).token == old(self).token,
            final(self).events@ == old(self).events@,
    {
        let app_id = entry.app_id;
        let period = entry.period;
        match self.find_billing(app_id, period) {
            Some(k) => {
                proof {
                    assert forall|j: int| 0 <= j < k implies billing_key()(
                        #[trigger] old(self).billing@[j],
                    ) != (app_id, period) by {
                        if billing_key()(old(self).billing@[j]) == (app_id, period) {
                            assert(billing_key()(old(self).billing@[j]) == billing_key()(
                                old(self).billing@[k as int],
                            ));
                        }
                    }
                }
                self.billing.set(k, entry);
                proof {
                    let prev = old(self).billing@;
                    let cur = self.billing@;
                    assert(cur == prev.update(k as int, entry));
                    assert forall|i: int, j: int| 0 <= i < j < cur.len() implies billing_key()(
                        #[trigger] cur[i],
                    ) != billing_key()(#[trigger] cur[j]) by {
                        assert(billing_key()(cur[i]) == billing_key()(prev[i]));
                        assert(billing_key()(cur[j]) == billing_key()(prev[j]));
                    }
                    assert forall|j: int| 0 <= j < k implies billing_key()(#[trigger] cur[j])
                        != billing_key()(cur[k as int]) by {
                        assert(cur[j] == prev[j]);
                    }
                    lemma_assoc_lookup_found(cur, billing_key(), k as int);
                    assert forall|a2: u64, p2: u64| !(a2 == app_id && p2 == period) implies
                        assoc_lookup(cur, billing_key(), (a2, p2)) == assoc_lookup(
                        prev,
                        billing_key(),
                        (a2, p2),
                    ) by {
                        lemma_assoc_lookup_update_other(
                            prev,
                            billing_key(),
                            k as int,
                            entry,
                            (a2, p2),
                        );
                    }
                }
            },
            None => {
                self.billing.push(entry);
                proof {
                    let prev = old(self).billing@;
                    let cur = self.billing@;
                    assert(forall|j: int|
                        0 <= j < prev.len() ==> billing_key()(#[trigger] prev[j]) != (
                        app_id,
                        period,
                        )) by {
                        lemma_billing_miss_converse(prev, (app_id, period));
                    }
                    assert forall|i: int, j: int| 0 <= i < j < cur.len() implies billing_key()(
                        #[trigger] cur[i],
                    ) != billing_key()(#[trigger] cur[j]) by {
                        if j < prev.len() {
                            assert(cur[i] == prev[i]);
                            assert(cur[j] == prev[j]);
                        } else {
                            assert(cur[i] == prev[i]);
                            assert(cur[j] == entry);
                        }
                    }
                    assert forall|j: int| 0 <= j < prev.len() implies billing_key()(
                        #[trigger] cur[j],
                    ) != billing_key()(cur[prev.len() as int]) by {
                        assert(cur[j] == prev[j]);
                    }
                    assert(cur[prev.len() as int] == entry);
                    lemma_assoc_lookup_found(cur, billing_key(), prev.len() as int);
                    assert forall|a2: u64, p2: u64| !(a2 == app_id && p2 == period) implies
                        assoc_lookup(cur, billing_key(), (a2, p2)) == assoc_lookup(
                        prev,
                        billing_key(),
                        (a2, p2),
                    ) by {
                        lemma_assoc_lookup_push_other(prev, billing_key(), entry, (a2, p2));
                    }
                }
            },
        }
    }

    /// Pays toward an app's bill for one period: 100% to the treasury.
    /// Payments for the same period accumulate, never overwrite, so
    /// partial and installment billing add up. Anyone may pay any app's
    /// bill with their own funds; no ownership is checked. On success the
    /// single transfer the environment owes is returned.
    pub fn pay_bill(&mut self, caller: u64, app_id: u64, period: u64, amount: u64, now: u64) -> (r:
        Result<TransferRequest, PaymentError>)
        requires
            old(self).wf(),
            caller != 0,
            (app_id != 0 && period != 0 && amount != 0) ==> (old(self).billing_of(app_id, period)
                + amount <= u64::MAX && old(self).total_platform_revenue + amount <= u64::MAX),
        ensures
            final(self).wf(),
            r == Err::<TransferRequest, PaymentError>(PaymentError::InvalidAppId) <==> app_id == 0,
            r == Err::<TransferRequest, PaymentError>(PaymentError::InvalidPeriod) <==> (app_id
                != 0 && period == 0),
            r == Err::<TransferRequest, PaymentError>(PaymentError::InsufficientPayment) <==> (
            app_id != 0 && period != 0 && amount == 0),
            (r is Ok) <==> (app_id != 0 && period != 0 && amount != 0),
            r is Err ==> *final(self) == *old(self),
            r matches Ok(t) ==> {
                &&& t == (TransferRequest { from: caller, to: old(self).treasury, amount })
                &&& final(self).billing_of(app_id, period) == old(self).billing_of(app_id, period)
                    + amount
                &&& forall|a2: u64, p2: u64|
                    !(a2 == app_id && p2 == period) ==> final(self).billing_of(a2, p2) == old(
                        self,
                    ).billing_of(a2, p2)
                &&& final(self).total_platform_revenue == old(self).total_platform_revenue + amount
                &&& final(self).total_developer_payouts == old(self).total_developer_payouts
                &&& final(self).pricing@ == old(self).pricing@
                &&& final(self).purchases@ == old(self).purchases@
                &&& final(self).owner == old(self).owner
                &&& final(self).treasury == old(self).treasury
                &&& final(self).token == old(self).token
                &&& final(self).events@ == old(self).events@.push(
                    (PaymentEvent::BillingPayment { app_id, payer: caller, amount, period, timestamp: now }),
                )
            },
    {
        if app_id == 0 {
            return Err(PaymentError::InvalidAppId);
        }
        if period == 0 {
            return Err(PaymentError::InvalidPeriod);
        }
        if amount == 0 {
            return Err(PaymentError::InsufficientPayment);
        }
        let paid_before = self.get_billing_payment(app_id, period);
        self.upsert_billing(BillingEntry { app_id, period, amount: paid_before + amount });
        self.total_platform_revenue = self.total_platform_revenue + amount;
        self.events.push(
            PaymentEvent::BillingPayment { app_id, payer: caller, amount, period, timestamp: now },
        );
        proof {
            lemma_sums_push(
                old(self).events@,
                PaymentEvent::BillingPayment {
                    app_id,
                    payer: caller,
                    amount,
                    period,
                    timestamp: now,
                },
            );
        }
        Ok(TransferRequest { from: caller, to: self.treasury, amount })
    }

    /// The pricing tuple for an app: price, developer, subscription
    /// flag, interval and active flag, all zeroed when it was never
    /// priced.
    pub fn get_app_pricing(&self, app_id: u64) -> (r: (u64, u64, bool, u64, bool))
        ensures
            r == (match self.pricing_of(app_id) {
                Some(p) => (p.price_usdc, p.developer, p.is_subscription, p.interval_days, p.is_active),
                None => (0u64, 0u64, false, 0u64, false),
            }),
    {
        match self.find_pricing(app_id) {
            Some(k) => {
                let p = self.pricing[k];
                (p.price_usdc, p.developer, p.is_subscription, p.interval_days, p.is_active)
            },
            None => (0, 0, false, 0, false),
        }
    }

    /// Total platform revenue settled so far.
    pub fn get_total_platform_revenue(&self) -> (r: u64)
        ensures
            r == self.total_platform_revenue,
    {
        self.total_platform_revenue
    }

    /// Total developer payouts settled so far.
    pub fn get_total_developer_payouts(&self) -> (r: u64)
        ensures
            r == self.total_developer_payouts,
    {
        self.total_developer_payouts
    }

    /// The account that receives all platform fees and bill payments.
    pub fn get_treasury(&self) -> (r: u64)
        ensures
            r == self.treasury,
    {
        self.treasury
    }

    /// The payment-token account the transfers settle in, by convention
    /// the USDC token.
    pub fn get_usdc_address(&self) -> (r: u64)
        ensures
            r == self.token,
    {
        self.token
    }

    /// The current owner account.
    pub fn get_owner(&self) -> (r: u64)
        ensures
            r == self.owner,
    {
        self.owner
    }

    /// Hands the ledger to a new owner: owner only; a zero new owner is
    /// refused.
    pub fn transfer_ownership(&mut self, caller: u64, new_owner: u64) -> (r: Result<
        (),
        PaymentError,
    >)
        requires
            old(self).wf(),
        ensures
            final(self).wf(),
            r == Err::<(), PaymentError>(PaymentError::Unauthorized) <==> (caller != old(
                self,
            ).owner || new_owner == 0),
            (r is Ok) <==> (caller == old(self).owner && new_owner != 0),
            r is Err ==> *final(self) == *old(self),
            r is Ok ==> {
                &&& final(self).owner == new_owner
                &&& final(self).treasury == old(self).treasury
                &&& final(self).token == old(self).token
                &&& final(self).pricing@ == old(self).pricing@
                &&& final(self).purchases@ == old(self).purchases@
                &&& final(self).billing@ == old(self).billing@
                &&& final(self).total_platform_revenue == old(self).total_platform_revenue
                &&& final(self).total_developer_payouts == old(self).total_developer_payouts
                &&& final(self).events@ == old(self).events@
            },
    {
        if caller != self.owner {
            return Err(PaymentError::Unauthorized);
        }
        if new_owner == 0 {
            return Err(PaymentError::Unauthorized);
        }
        self.owner = new_owner;
        Ok(())
    }

    /// The log of committed transitions, oldest first.
    pub fn get_events(&self) -> (r: &Vec<PaymentEvent>)
        ensures
            r@ == self.events@,
    {
        &self.events
    }
}

/// Law: a purchase is recorded at most once per (app, buyer) pair; a
/// later attempt for a recorded pair fails rather than re-charging.
pub proof fn lemma_purchases_unique(l: PaymentLedger)
    requires
        l.wf(),
    ensures
        nodup_pairs(l.purchases@),
{
}

/// Law: the two running totals always equal the sums of the fee and
/// share components of every event ever committed — no settled unit is
/// dropped or counted twice, whatever sequence of operations built the
/// ledger.
pub proof fn lemma_revenue_totals_accounted(l: PaymentLedger)
    requires
        l.wf(),
    ensures
        l.total_platform_revenue as int == sum_platform(l.events@),
        l.total_developer_payouts as int == sum_payouts(l.events@),
{
}

/// From a missed lookup back to pointwise misses, for the billing table.
proof fn lemma_billing_miss_converse(s: Seq<BillingEntry>, key: (u64, u64))
    requires
        assoc_lookup(s, billing_key(), key) == None::<BillingEntry>,
    ensures
        forall|j: int| 0 <= j < s.len() ==> billing_key()(#[trigger] s[j]) != key,
    decreases s.len(),
{
    if s.len() > 0 {
        assert(billing_key()(s[0]) != key);
        lemma_billing_miss_converse(s.drop_first(), key);
        assert forall|j: int| 0 <= j < s.len() implies billing_key()(#[trigger] s[j]) != key by {
            if j > 0 {
                assert(s.drop_first()[j - 1] == s[j]);
            }
        }
    }
}

/// From a missed lookup back to pointwise misses, for the pricing table.
proof fn lemma_assoc_lookup_miss_converse(s: Seq<PricingRecord>, app_id: u64)
    requires
        assoc_lookup(s, pricing_key(), app_id) == None::<PricingRecord>,
    ensures
        forall|j: int| 0 <= j < s.len() ==> (#[trigger] s[j]).app_id != app_id,
    decreases s.len(),
{
    if s.len() > 0 {
        assert(s[0].app_id != app_id);
        lemma_assoc_lookup_miss_converse(s.drop_first(), app_id);
        assert forall|j: int| 0 <= j < s.len() implies (#[trigger] s[j]).app_id != app_id by {
            if j > 0 {
                assert(s.drop_first()[j - 1] == s[j]);
            }
        }
    }
}

} // verus!
