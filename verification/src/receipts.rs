//! What recipients do to deliveries: fetch, acknowledge, and report receipts.

use crate::lifecycle::{rank_of, receipt_rank, receipt_state, routes_to_inbox, state_of};
use crate::rows::{lemma_views_update, views};
use crate::search::position;
use crate::store::{
    DbV, Delivery, DeliveryV, ErrorKind, ErrorV, HcomDb, Instance, InstanceV, LifecycleError,
    RecordV, Savepoint, about, extends, leaves, moved, notified_after, opt_id, plain, refuse,
    refuse_about,
};
use crate::text::{copy_opt, holds_text, same, texts};
use vstd::prelude::*;

verus! {

/// What came of a receipt.
#[derive(Debug)]
pub struct DeliveryReceiptResult {
    pub message_id: String,
    pub recipient: String,
    pub prior_state: String,
    pub state: String,
    pub state_event_id: Option<i64>,
    pub idempotent: bool,
}

/// The view of a [`DeliveryReceiptResult`].
pub struct ReceiptV {
    pub message_id: Seq<char>,
    pub recipient: Seq<char>,
    pub prior_state: Seq<char>,
    pub state: Seq<char>,
    pub state_event_id: Option<int>,
    pub idempotent: bool,
}

impl View for DeliveryReceiptResult {
    type V = ReceiptV;

    open spec fn view(&self) -> ReceiptV {
        ReceiptV {
            message_id: self.message_id@,
            recipient: self.recipient@,
            prior_state: self.prior_state@,
            state: self.state@,
            state_event_id: opt_id(self.state_event_id),
            idempotent: self.idempotent,
        }
    }
}

/// Whether a delivery in the state is hidden from unread messages.
pub open spec fn settled(state: Seq<char>) -> bool {
    state == "accepted"@ || state == "acknowledged"@ || state == "replied"@ || state == "cancelled"@
        || state == "superseded"@ || state == "delivery_failed"@
}

/// Whether the message waits unread in the recipient's inbox; nothing where it has no delivery to
/// the recipient.
pub open spec fn unread(db: DbV, message_id: Seq<char>, recipient: Seq<char>) -> Option<bool> {
    match db.delivery(message_id, recipient) {
        None => None,
        Some(row) => Some(
            routes_to_inbox(db, message_id, row.delivery_endpoint) == Ok::<bool, ErrorV>(true)
                && !settled(row.state),
        ),
    }
}

/// Whether the message can be handed to the recipient again after a restart; nothing where it has
/// no delivery to the recipient.
pub open spec fn recoverable(db: DbV, message_id: Seq<char>, recipient: Seq<char>) -> Option<bool> {
    match db.delivery(message_id, recipient) {
        None => None,
        Some(row) => Some(
            routes_to_inbox(db, message_id, row.delivery_endpoint) == Ok::<bool, ErrorV>(true) && (
            row.state == "queued"@ || row.state == "received"@ || row.state == "accepted"@),
        ),
    }
}

/// The store after the delivery at a position has moved along the chain of receipts, from one
/// place to another.
pub open spec fn climbed(
    db: DbV,
    k: int,
    from: int,
    to: int,
    actor: Seq<char>,
    reason: Seq<char>,
    now: Seq<char>,
) -> Result<DbV, ErrorV>
    decreases to - from,
{
    if to <= from {
        Ok(db)
    } else {
        match climbed(db, k, from, to - 1, actor, reason, now) {
            Err(e) => Err(e),
            Ok(d) => match moved(d, k, receipt_state(to), actor, reason, now, actor) {
                Err(e) => Err(e),
                Ok((d2, _)) => Ok(d2),
            },
        }
    }
}

/// The refusal of a receipt for a delivery.
pub open spec fn receipt_refusal(
    db: DbV,
    row: DeliveryV,
    actor: Seq<char>,
    endpoint_epoch: Seq<char>,
    requested: Seq<char>,
) -> Option<ErrorV> {
    if actor != row.recipient_name {
        Some(plain(ErrorKind::ReceiptActor))
    } else if row.endpoint_epoch != endpoint_epoch {
        Some(plain(ErrorKind::StaleEpoch))
    } else if db.epoch_or_empty(row.recipient_name) != row.endpoint_epoch {
        Some(plain(ErrorKind::StaleEpoch))
    } else if receipt_rank(requested) is None || receipt_rank(requested) == Some(0int) {
        Some(about(ErrorKind::UnsupportedReceipt, requested))
    } else if receipt_rank(row.state) is None {
        Some(about(ErrorKind::NotReceiptable, row.state))
    } else {
        None
    }
}

/// The store after a receipt, and what came of it; or the refusal.
pub open spec fn receipted(
    db: DbV,
    message_id: Seq<char>,
    recipient: Seq<char>,
    actor: Seq<char>,
    endpoint_epoch: Seq<char>,
    requested: Seq<char>,
    reason: Seq<char>,
    now: Seq<char>,
) -> Result<(DbV, ReceiptV), ErrorV> {
    match db.delivery_pos(message_id, recipient) {
        None => Err(plain(ErrorKind::DeliveryNotFound)),
        Some(k) => {
            let row = db.deliveries[k];
            match receipt_refusal(db, row, actor, endpoint_epoch, requested) {
                Some(e) => Err(e),
                None => {
                    let from = receipt_rank(row.state)->0;
                    let to = receipt_rank(requested)->0;
                    if from >= to {
                        Ok(
                            (
                                db,
                                ReceiptV {
                                    message_id,
                                    recipient,
                                    prior_state: row.state,
                                    state: row.state,
                                    state_event_id: None,
                                    idempotent: true,
                                },
                            ),
                        )
                    } else {
                        match climbed(db, k, from, to, actor, reason, now) {
                            Err(e) => Err(e),
                            Ok(d) => Ok(
                                (
                                    notified_after(d, db.sequence),
                                    ReceiptV {
                                        message_id,
                                        recipient,
                                        prior_state: row.state,
                                        state: requested,
                                        state_event_id: Some(d.sequence),
                                        idempotent: false,
                                    },
                                ),
                            ),
                        }
                    }
                },
            }
        },
    }
}

/// The store with the delivery at a position bound to an endpoint epoch.
pub open spec fn rebound(db: DbV, k: int, epoch: Seq<char>) -> DbV {
    DbV {
        deliveries: db.deliveries.update(
            k,
            DeliveryV { endpoint_epoch: epoch, ..db.deliveries[k] },
        ),
        ..db
    }
}

/// Why a queued delivery was fetched.
pub open spec fn fetch_reason(row: DeliveryV, epoch: Seq<char>) -> Seq<char> {
    if row.endpoint_epoch == epoch {
        "inbox fetch"@
    } else {
        "inbox fetch rebound queued delivery to current endpoint"@
    }
}

/// The store after the recipient, at an endpoint epoch, has fetched one message, and whether the
/// message is visible there.
pub open spec fn claimed_one(
    db: DbV,
    recipient: Seq<char>,
    epoch: Seq<char>,
    now: Seq<char>,
    message_id: Seq<char>,
) -> Result<(DbV, bool), ErrorV> {
    match db.delivery_pos(message_id, recipient) {
        None => Ok((db, false)),
        Some(k) => {
            let row = db.deliveries[k];
            match routes_to_inbox(db, message_id, row.delivery_endpoint) {
                Err(e) => Err(e),
                Ok(inbox) => if !inbox {
                    Ok((db, false))
                } else if row.state == "queued"@ {
                    match moved(
                        rebound(db, k, epoch),
                        k,
                        "received"@,
                        recipient,
                        fetch_reason(row, epoch),
                        now,
                        recipient,
                    ) {
                        Err(e) => Err(e),
                        Ok((d, _)) => Ok((d, true)),
                    }
                } else if (row.state == "received"@ || row.state == "accepted"@)
                    && row.endpoint_epoch != epoch {
                    Ok(
                        (
                            DbV {
                                deliveries: db.deliveries.update(
                                    k,
                                    DeliveryV {
                                        endpoint_epoch: epoch,
                                        last_actor: recipient,
                                        updated_at: now,
                                        ..row
                                    },
                                ),
                                ..db
                            },
                            true,
                        ),
                    )
                } else {
                    Ok(
                        (
                            db,
                            row.endpoint_epoch == epoch && row.state != "cancelled"@ && row.state
                                != "superseded"@ && row.state != "delivery_failed"@,
                        ),
                    )
                },
            }
        },
    }
}

/// A list with a text added, unless it is there already.
pub open spec fn with_text(s: Seq<Seq<char>>, t: Seq<char>) -> Seq<Seq<char>> {
    if s.contains(t) {
        s
    } else {
        s.push(t)
    }
}

/// The store after the recipient, at an endpoint epoch, has fetched the first `n` of the messages,
/// and those of them that are visible there.
pub open spec fn claimed(
    db: DbV,
    recipient: Seq<char>,
    epoch: Seq<char>,
    now: Seq<char>,
    message_ids: Seq<Seq<char>>,
    n: int,
) -> Result<(DbV, Seq<Seq<char>>), ErrorV>
    decreases n,
{
    if n <= 0 {
        Ok((db, Seq::empty()))
    } else {
        match claimed(db, recipient, epoch, now, message_ids, n - 1) {
            Err(e) => Err(e),
            Ok((d, visible)) => match claimed_one(d, recipient, epoch, now, message_ids[n - 1]) {
                Err(e) => Err(e),
                Ok((d2, shown)) => Ok(
                    (
                        d2,
                        if shown {
                            with_text(visible, message_ids[n - 1])
                        } else {
                            visible
                        },
                    ),
                ),
            },
        }
    }
}

/// The store after a fetch, and the messages that are visible to the recipient; or the refusal.
pub open spec fn fetched(
    db: DbV,
    recipient: Seq<char>,
    message_ids: Seq<Seq<char>>,
    now: Seq<char>,
) -> Result<(DbV, Seq<Seq<char>>), ErrorV> {
    match db.epoch_of(recipient) {
        None => Err(plain(ErrorKind::RecipientUnknown)),
        Some(epoch) => match claimed(
            db,
            recipient,
            epoch,
            now,
            message_ids,
            message_ids.len() as int,
        ) {
            Err(e) => Err(e),
            Ok((d, visible)) => Ok((notified_after(d, db.sequence), visible)),
        },
    }
}

/// Whether an acknowledgement passes over deliveries in the state.
pub open spec fn passed_over(state: Seq<char>) -> bool {
    state == "cancelled"@ || state == "superseded"@ || state == "delivery_failed"@ || state
        == "cancellation_requested"@ || state == "supersession_requested"@ || state == "replied"@
}

/// The store after the recipient, at an endpoint epoch, has acknowledged one message, where its
/// event is not beyond the cursor.
pub open spec fn acknowledged_one(
    db: DbV,
    record: RecordV,
    recipient: Seq<char>,
    epoch: Seq<char>,
    cursor: int,
    now: Seq<char>,
) -> Result<DbV, ErrorV> {
    if record.event_id > cursor {
        Ok(db)
    } else {
        match db.delivery_pos(record.message_id, recipient) {
            None => Ok(db),
            Some(k) => {
                let row = db.deliveries[k];
                match routes_to_inbox(db, record.message_id, row.delivery_endpoint) {
                    Err(e) => Err(e),
                    Ok(inbox) => if !inbox || passed_over(row.state) {
                        Ok(db)
                    } else if row.endpoint_epoch != epoch {
                        if row.state == "queued"@ {
                            Err(plain(ErrorKind::StaleQueued))
                        } else {
                            Ok(db)
                        }
                    } else {
                        match receipt_rank(row.state) {
                            None => Err(about(ErrorKind::NotAcknowledgeable, row.state)),
                            Some(rank) => climbed(
                                db,
                                k,
                                rank,
                                3,
                                recipient,
                                "Pi accepted inbox delivery"@,
                                now,
                            ),
                        }
                    },
                }
            },
        }
    }
}

/// The store after the recipient, at an endpoint epoch, has acknowledged what stands at or before
/// the cursor among the first `n` records.
pub open spec fn acknowledged(
    db: DbV,
    recipient: Seq<char>,
    epoch: Seq<char>,
    cursor: int,
    now: Seq<char>,
    n: int,
) -> Result<DbV, ErrorV>
    decreases n,
{
    if n <= 0 {
        Ok(db)
    } else {
        match acknowledged(db, recipient, epoch, cursor, now, n - 1) {
            Err(e) => Err(e),
            Ok(d) => acknowledged_one(d, db.records[n - 1], recipient, epoch, cursor, now),
        }
    }
}

/// The store with the cursor of the instance at a position advanced; a cursor never goes back.
pub open spec fn advanced(db: DbV, i: int, cursor: int) -> DbV {
    let row = db.instances[i];
    DbV {
        instances: db.instances.update(
            i,
            InstanceV {
                last_event_id: if row.last_event_id < cursor {
                    cursor
                } else {
                    row.last_event_id
                },
                ..row
            },
        ),
        ..db
    }
}

/// The store after an acknowledgement up to a cursor; or the refusal.
pub open spec fn inbox_acknowledged(db: DbV, recipient: Seq<char>, cursor: int, now: Seq<char>) -> Result<
    DbV,
    ErrorV,
> {
    match db.instance_pos(recipient) {
        None => Err(plain(ErrorKind::RecipientUnknown)),
        Some(i) => match acknowledged(
            db,
            recipient,
            db.instances[i].endpoint_epoch,
            cursor,
            now,
            db.records.len() as int,
        ) {
            Err(e) => Err(e),
            Ok(d) => Ok(notified_after(advanced(d, i, cursor), db.sequence)),
        },
    }
}

proof fn lemma_claimed_fails(
    db: DbV,
    recipient: Seq<char>,
    epoch: Seq<char>,
    now: Seq<char>,
    message_ids: Seq<Seq<char>>,
    n: int,
    m: int,
    e: ErrorV,
)
    requires
        0 <= n <= m,
        claimed(db, recipient, epoch, now, message_ids, n) == Err::<
            (DbV, Seq<Seq<char>>),
            ErrorV,
        >(e),
    ensures
        claimed(db, recipient, epoch, now, message_ids, m) == Err::<
            (DbV, Seq<Seq<char>>),
            ErrorV,
        >(e),
    decreases m - n,
{
    if n < m {
        lemma_claimed_fails(db, recipient, epoch, now, message_ids, n, m - 1, e);
    }
}

proof fn lemma_acknowledged_fails(
    db: DbV,
    recipient: Seq<char>,
    epoch: Seq<char>,
    cursor: int,
    now: Seq<char>,
    n: int,
    m: int,
    e: ErrorV,
)
    requires
        0 <= n <= m,
        acknowledged(db, recipient, epoch, cursor, now, n) == Err::<DbV, ErrorV>(e),
    ensures
        acknowledged(db, recipient, epoch, cursor, now, m) == Err::<DbV, ErrorV>(e),
    decreases m - n,
{
    if n < m {
        lemma_acknowledged_fails(db, recipient, epoch, cursor, now, n, m - 1, e);
    }
}

proof fn lemma_climbed_fails(
    db: DbV,
    k: int,
    from: int,
    n: int,
    m: int,
    actor: Seq<char>,
    reason: Seq<char>,
    now: Seq<char>,
    e: ErrorV,
)
    requires
        n <= m,
        climbed(db, k, from, n, actor, reason, now) == Err::<DbV, ErrorV>(e),
    ensures
        climbed(db, k, from, m, actor, reason, now) == Err::<DbV, ErrorV>(e),
    decreases m - n,
{
    if n < m {
        lemma_climbed_fails(db, k, from, n, m - 1, actor, reason, now, e);
    }
}

/// Whether the records and the events of one store are the first ones of another.
pub open spec fn grows(start: DbV, db: DbV) -> bool {
    &&& extends(start, db)
    &&& start.records == db.records
    &&& start.sequence <= db.sequence
    &&& start.deliveries.len() == db.deliveries.len()
}

impl HcomDb {
    /// Whether the message waits unread in the recipient's inbox.
    pub fn projected_inbox_delivery(&self, message_id: &str, recipient: &str) -> (r: Option<bool>)
        ensures
            r == unread(self@, message_id@, recipient@),
    {
        match self.find_delivery(message_id, recipient) {
            None => None,
            Some(k) => {
                let row: &Delivery = &self.deliveries[k];
                let inbox: bool = match self.delivery_routes_to_inbox(
                    message_id,
                    row.delivery_endpoint.as_str(),
                ) {
                    Ok(b) => b,
                    Err(_) => false,
                };
                let state: &str = row.state.as_str();
                let done: bool = same(state, "accepted") || same(state, "acknowledged") || same(
                    state,
                    "replied",
                ) || same(state, "cancelled") || same(state, "superseded") || same(
                    state,
                    "delivery_failed",
                );
                Some(inbox && !done)
            },
        }
    }

    /// Whether the message can be handed to the recipient again after a restart: fetched messages
    /// that were not injected, and injected ones that were not acknowledged, as well as new ones.
    pub fn projected_pi_recoverable_inbox_delivery(&self, message_id: &str, recipient: &str) -> (r:
        Option<bool>)
        ensures
            r == recoverable(self@, message_id@, recipient@),
    {
        match self.find_delivery(message_id, recipient) {
            None => None,
            Some(k) => {
                let row: &Delivery = &self.deliveries[k];
                let inbox: bool = match self.delivery_routes_to_inbox(
                    message_id,
                    row.delivery_endpoint.as_str(),
                ) {
                    Ok(b) => b,
                    Err(_) => false,
                };
                let state: &str = row.state.as_str();
                Some(
                    inbox && (same(state, "queued") || same(state, "received") || same(
                        state,
                        "accepted",
                    )),
                )
            },
        }
    }

    fn climb(
        &mut self,
        k: usize,
        from: u8,
        to: u8,
        actor: &str,
        reason: &str,
        now: &str,
    ) -> (r: Result<(), LifecycleError>)
        requires
            k < old(self).deliveries@.len(),
            from <= to <= 3,
        ensures
            grows(old(self)@, final(self)@),
            leaves(
                r,
                final(self)@,
                climbed(old(self)@, k as int, from as int, to as int, actor@, reason@, now@),
            ),
            final(self).events@.len() - old(self).events@.len() == final(self)@.sequence
                - old(self)@.sequence,
            r is Ok && from < to ==> final(self)@.sequence > old(self)@.sequence,
    {
        let ghost start = self@;
        let mut rank: u8 = from;
        while rank < to
            invariant
                from <= rank <= to <= 3,
                start == old(self)@,
                k < self.deliveries@.len(),
                self.deliveries@.len() == start.deliveries.len(),
                grows(start, self@),
                self@.events.len() - start.events.len() == self@.sequence - start.sequence,
                from < rank ==> self@.sequence > start.sequence,
                climbed(start, k as int, from as int, rank as int, actor@, reason@, now@) == Ok::<
                    DbV,
                    ErrorV,
                >(self@),
            decreases to - rank,
        {
            rank = rank + 1;
            if let Err(e) = self.move_delivery(k, state_of(rank), actor, reason, now, actor) {
                proof {
                    lemma_climbed_fails(
                        start,
                        k as int,
                        from as int,
                        rank as int,
                        to as int,
                        actor@,
                        reason@,
                        now@,
                        e@,
                    );
                }
                return Err(e);
            }
        }
        Ok(())
    }

    fn refuse_receipt(&self, k: usize, actor: &str, endpoint_epoch: &str, requested: &str) -> (r: Option<
        LifecycleError,
    >)
        requires
            k < self.deliveries@.len(),
        ensures
            (match r {
                Some(e) => Some(e@),
                None => None,
            }) == receipt_refusal(
                self@,
                self.deliveries@[k as int]@,
                actor@,
                endpoint_epoch@,
                requested@,
            ),
    {
        let row: &Delivery = &self.deliveries[k];
        if !same(actor, row.recipient_name.as_str()) {
            return Some(refuse(ErrorKind::ReceiptActor));
        }
        if !same(row.endpoint_epoch.as_str(), endpoint_epoch) {
            return Some(refuse(ErrorKind::StaleEpoch));
        }
        let current: String = self.snapshot_epoch(row.recipient_name.as_str());
        if !same(current.as_str(), row.endpoint_epoch.as_str()) {
            return Some(refuse(ErrorKind::StaleEpoch));
        }
        match rank_of(requested) {
            Some(n) => {
                if n == 0 {
                    return Some(refuse_about(ErrorKind::UnsupportedReceipt, requested));
                }
            },
            None => {
                return Some(refuse_about(ErrorKind::UnsupportedReceipt, requested));
            },
        }
        if rank_of(row.state.as_str()).is_none() {
            return Some(refuse_about(ErrorKind::NotReceiptable, row.state.as_str()));
        }
        None
    }

    /// Moves a delivery along the chain of receipts, up to the requested state. A receipt that
    /// brings nothing new changes nothing.
    pub fn record_delivery_receipt(
        &mut self,
        message_id: &str,
        recipient: &str,
        actor: &str,
        endpoint_epoch: &str,
        state: &str,
        reason: &str,
        now: &str,
    ) -> (r: Result<DeliveryReceiptResult, LifecycleError>)
        ensures
            match r {
                Ok(v) => receipted(
                    old(self)@,
                    message_id@,
                    recipient@,
                    actor@,
                    endpoint_epoch@,
                    state@,
                    reason@,
                    now@,
                ) == Ok::<(DbV, ReceiptV), ErrorV>((final(self)@, v@)),
                Err(e) => receipted(
                    old(self)@,
                    message_id@,
                    recipient@,
                    actor@,
                    endpoint_epoch@,
                    state@,
                    reason@,
                    now@,
                ) == Err::<(DbV, ReceiptV), ErrorV>(e@) && final(self)@ == old(self)@,
            },
    {
        let k: usize = match self.find_delivery(message_id, recipient) {
            None => {
                return Err(refuse(ErrorKind::DeliveryNotFound));
            },
            Some(k) => k,
        };
        if let Some(e) = self.refuse_receipt(k, actor, endpoint_epoch, state) {
            return Err(e);
        }
        let prior: String = self.deliveries[k].state.clone();
        let (from, to): (u8, u8) = match (rank_of(prior.as_str()), rank_of(state)) {
            (Some(from), Some(to)) => (from, to),
            _ => (0, 0),
        };
        if from >= to {
            return Ok(
                DeliveryReceiptResult {
                    message_id: message_id.to_owned(),
                    recipient: recipient.to_owned(),
                    prior_state: prior.clone(),
                    state: prior,
                    state_event_id: None,
                    idempotent: true,
                },
            );
        }
        let first: i64 = self.sequence;
        let point: Savepoint = self.savepoint();
        if let Err(e) = self.climb(k, from, to, actor, reason, now) {
            self.roll_back(point);
            return Err(e);
        }
        let last: i64 = self.sequence;
        self.notify_after(first);
        Ok(
            DeliveryReceiptResult {
                message_id: message_id.to_owned(),
                recipient: recipient.to_owned(),
                prior_state: prior,
                state: state.to_owned(),
                state_event_id: Some(last),
                idempotent: false,
            },
        )
    }

    fn claim_one(&mut self, recipient: &str, epoch: &str, now: &str, message_id: &str) -> (r: Result<
        bool,
        LifecycleError,
    >)
        ensures
            grows(old(self)@, final(self)@),
            match r {
                Ok(shown) => claimed_one(old(self)@, recipient@, epoch@, now@, message_id@) == Ok::<
                    (DbV, bool),
                    ErrorV,
                >((final(self)@, shown)),
                Err(e) => claimed_one(old(self)@, recipient@, epoch@, now@, message_id@) == Err::<
                    (DbV, bool),
                    ErrorV,
                >(e@),
            },
    {
        let k: usize = match self.find_delivery(message_id, recipient) {
            None => {
                return Ok(false);
            },
            Some(k) => k,
        };
        let mut row: Delivery = self.deliveries[k].duplicate();
        match self.delivery_routes_to_inbox(message_id, row.delivery_endpoint.as_str()) {
            Err(e) => {
                return Err(e);
            },
            Ok(inbox) => {
                if !inbox {
                    return Ok(false);
                }
            },
        }
        let current: bool = same(row.endpoint_epoch.as_str(), epoch);
        if same(row.state.as_str(), "queued") {
            row.endpoint_epoch = epoch.to_owned();
            proof {
                lemma_views_update(self.deliveries@, k as int, row);
            }
            self.deliveries.set(k, row);
            assert(self@ =~= rebound(old(self)@, k as int, epoch@));
            let reason: &str = if current {
                "inbox fetch"
            } else {
                "inbox fetch rebound queued delivery to current endpoint"
            };
            return match self.move_delivery(k, "received", recipient, reason, now, recipient) {
                Ok(_) => Ok(true),
                Err(e) => Err(e),
            };
        }
        if (same(row.state.as_str(), "received") || same(row.state.as_str(), "accepted"))
            && !current {
            row.endpoint_epoch = epoch.to_owned();
            row.last_actor = recipient.to_owned();
            row.updated_at = now.to_owned();
            proof {
                lemma_views_update(self.deliveries@, k as int, row);
            }
            self.deliveries.set(k, row);
            return Ok(true);
        }
        Ok(
            current && !same(row.state.as_str(), "cancelled") && !same(
                row.state.as_str(),
                "superseded",
            ) && !same(row.state.as_str(), "delivery_failed"),
        )
    }

    fn claim_all(&mut self, recipient: &str, epoch: &str, now: &str, message_ids: &Vec<String>) -> (r:
        Result<Vec<String>, LifecycleError>)
        ensures
            grows(old(self)@, final(self)@),
            match r {
                Ok(visible) => claimed(
                    old(self)@,
                    recipient@,
                    epoch@,
                    now@,
                    texts(message_ids@),
                    message_ids@.len() as int,
                ) == Ok::<(DbV, Seq<Seq<char>>), ErrorV>((final(self)@, texts(visible@))),
                Err(e) => claimed(
                    old(self)@,
                    recipient@,
                    epoch@,
                    now@,
                    texts(message_ids@),
                    message_ids@.len() as int,
                ) == Err::<(DbV, Seq<Seq<char>>), ErrorV>(e@),
            },
    {
        let ghost start = self@;
        let mut visible: Vec<String> = Vec::new();
        assert(texts(visible@) =~= Seq::<Seq<char>>::empty());
        let mut i: usize = 0;
        while i < message_ids.len()
            invariant
                i <= message_ids@.len(),
                start == old(self)@,
                grows(start, self@),
                claimed(start, recipient@, epoch@, now@, texts(message_ids@), i as int) == Ok::<
                    (DbV, Seq<Seq<char>>),
                    ErrorV,
                >((self@, texts(visible@))),
            decreases message_ids.len() - i,
        {
            let id: &str = message_ids[i].as_str();
            assert(id@ == texts(message_ids@)[i as int]);
            match self.claim_one(recipient, epoch, now, id) {
                Err(e) => {
                    proof {
                        lemma_claimed_fails(
                            start,
                            recipient@,
                            epoch@,
                            now@,
                            texts(message_ids@),
                            i as int + 1,
                            message_ids@.len() as int,
                            e@,
                        );
                    }
                    return Err(e);
                },
                Ok(shown) => {
                    if shown && !holds_text(&visible, id) {
                        let s: String = id.to_owned();
                        proof {
                            crate::text::lemma_texts_push(visible@, s);
                        }
                        visible.push(s);
                    }
                },
            }
            i += 1;
        }
        Ok(visible)
    }

    /// Fetches messages for the recipient's current endpoint. Queued deliveries become received
    /// and are bound to that endpoint; received and accepted ones that were bound to an earlier
    /// endpoint are bound to it. Returns the messages that are visible there. Messages without a
    /// delivery are left to the caller.
    pub fn claim_inbox_received(&mut self, recipient: &str, message_ids: &Vec<String>, now: &str) -> (r:
        Result<Vec<String>, LifecycleError>)
        ensures
            match r {
                Ok(visible) => fetched(old(self)@, recipient@, texts(message_ids@), now@) == Ok::<
                    (DbV, Seq<Seq<char>>),
                    ErrorV,
                >((final(self)@, texts(visible@))),
                Err(e) => fetched(old(self)@, recipient@, texts(message_ids@), now@) == Err::<
                    (DbV, Seq<Seq<char>>),
                    ErrorV,
                >(e@) && final(self)@ == old(self)@,
            },
    {
        let epoch: String = match self.find_instance(recipient) {
            None => {
                return Err(refuse(ErrorKind::RecipientUnknown));
            },
            Some(i) => self.instances[i].endpoint_epoch.clone(),
        };
        let first: i64 = self.sequence;
        let point: Savepoint = self.savepoint();
        match self.claim_all(recipient, epoch.as_str(), now, message_ids) {
            Ok(visible) => {
                self.notify_after(first);
                Ok(visible)
            },
            Err(e) => {
                self.roll_back(point);
                Err(e)
            },
        }
    }

    fn acknowledge_one(&mut self, n: usize, recipient: &str, epoch: &str, cursor: i64, now: &str) -> (r:
        Result<(), LifecycleError>)
        requires
            n < old(self).records@.len(),
        ensures
            grows(old(self)@, final(self)@),
            final(self)@.events.len() - old(self)@.events.len() == final(self)@.sequence - old(
                self,
            )@.sequence,
            leaves(
                r,
                final(self)@,
                acknowledged_one(
                    old(self)@,
                    old(self)@.records[n as int],
                    recipient@,
                    epoch@,
                    cursor as int,
                    now@,
                ),
            ),
    {
        if self.records[n].event_id > cursor {
            return Ok(());
        }
        let k: usize = match self.find_delivery(self.records[n].message_id.as_str(), recipient) {
            None => {
                return Ok(());
            },
            Some(k) => k,
        };
        let row: Delivery = self.deliveries[k].duplicate();
        let state: &str = row.state.as_str();
        match self.delivery_routes_to_inbox(
            self.records[n].message_id.as_str(),
            row.delivery_endpoint.as_str(),
        ) {
            Err(e) => {
                return Err(e);
            },
            Ok(inbox) => {
                if !inbox {
                    return Ok(());
                }
            },
        }
        if same(state, "cancelled") || same(state, "superseded") || same(state, "delivery_failed")
            || same(state, "cancellation_requested") || same(state, "supersession_requested")
            || same(state, "replied") {
            return Ok(());
        }
        if !same(row.endpoint_epoch.as_str(), epoch) {
            if same(state, "queued") {
                return Err(refuse(ErrorKind::StaleQueued));
            }
            return Ok(());
        }
        match rank_of(state) {
            None => Err(refuse_about(ErrorKind::NotAcknowledgeable, state)),
            Some(rank) => self.climb(k, rank, 3, recipient, "Pi accepted inbox delivery", now),
        }
    }

    fn acknowledge_all(&mut self, recipient: &str, epoch: &str, cursor: i64, now: &str) -> (r: Result<
        (),
        LifecycleError,
    >)
        ensures
            grows(old(self)@, final(self)@),
            final(self)@.events.len() - old(self)@.events.len() == final(self)@.sequence - old(
                self,
            )@.sequence,
            leaves(
                r,
                final(self)@,
                acknowledged(
                    old(self)@,
                    recipient@,
                    epoch@,
                    cursor as int,
                    now@,
                    old(self)@.records.len() as int,
                ),
            ),
    {
        let ghost start = self@;
        let total: usize = self.records.len();
        let mut n: usize = 0;
        while n < total
            invariant
                n <= total,
                total == start.records.len(),
                total == self.records@.len(),
                start == old(self)@,
                grows(start, self@),
                self@.events.len() - start.events.len() == self@.sequence - start.sequence,
                acknowledged(start, recipient@, epoch@, cursor as int, now@, n as int) == Ok::<
                    DbV,
                    ErrorV,
                >(self@),
            decreases total - n,
        {
            let ghost before = self@;
            if let Err(e) = self.acknowledge_one(n, recipient, epoch, cursor, now) {
                proof {
                    lemma_acknowledged_fails(
                        start,
                        recipient@,
                        epoch@,
                        cursor as int,
                        now@,
                        n as int + 1,
                        total as int,
                        e@,
                    );
                }
                return Err(e);
            }
            assert(views(self.records@).len() == before.records.len());
            n += 1;
        }
        Ok(())
    }

    /// Acknowledges what the recipient's inbox holds up to an event, and advances its cursor to
    /// it: either both or neither. Returns the number of transitions.
    pub fn acknowledge_inbox_and_advance_cursor(&mut self, recipient: &str, event_id: i64, now: &str) -> (r:
        Result<usize, LifecycleError>)
        ensures
            match r {
                Ok(changed) => inbox_acknowledged(old(self)@, recipient@, event_id as int, now@)
                    == Ok::<DbV, ErrorV>(final(self)@) && changed == final(self)@.sequence - old(
                    self,
                )@.sequence,
                Err(e) => inbox_acknowledged(old(self)@, recipient@, event_id as int, now@) == Err::<
                    DbV,
                    ErrorV,
                >(e@) && final(self)@ == old(self)@,
            },
    {
        let i: usize = match self.find_instance(recipient) {
            None => {
                return Err(refuse(ErrorKind::RecipientUnknown));
            },
            Some(i) => i,
        };
        let epoch: String = self.instances[i].endpoint_epoch.clone();
        let first: i64 = self.sequence;
        let logged: usize = self.events.len();
        let point: Savepoint = self.savepoint();
        if let Err(e) = self.acknowledge_all(recipient, epoch.as_str(), event_id, now) {
            self.roll_back(point);
            return Err(e);
        }
        let ghost after = self@;
        assert(views(self.instances@).len() == old(self)@.instances.len());
        let last: i64 = self.instances[i].last_event_id;
        let row: Instance = Instance {
            name: self.instances[i].name.clone(),
            endpoint_epoch: self.instances[i].endpoint_epoch.clone(),
            last_event_id: if last < event_id {
                event_id
            } else {
                last
            },
            origin_device_id: copy_opt(&self.instances[i].origin_device_id),
        };
        proof {
            assert(self.instances@[i as int]@ == after.instances[i as int]);
            lemma_views_update(self.instances@, i as int, row);
        }
        self.instances.set(i, row);
        assert(self@ =~= advanced(after, i as int, event_id as int));
        let changed: usize = self.events.len() - logged;
        self.notify_after(first);
        Ok(changed)
    }
}

} // verus!
