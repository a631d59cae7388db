//! The intake pipeline: validate a submission, assign an identifier and a
//! timestamp, persist exactly one record per accepted call, and map the
//! outcome to an HTTP-level result.

use vstd::prelude::*;

use crate::Response;
use crate::form::{FormData, FormError, parse_form, spec_parse_form};

verus! {

/// A subscriber record: server-assigned identifier, submitted email and
/// name, and the time of insertion in microseconds since the Unix epoch.
#[derive(Debug, Clone)]
pub struct Subscriber {
    pub id: u128,
    pub email: Vec<u8>,
    pub name: Vec<u8>,
    pub subscribed_at_micros: i64,
}

/// Relies on `uuid::Uuid::new_v4` and `Uuid::as_u128`: a freshly drawn
/// random identifier. `new_v4` masks in the version nibble 4 (bits 76..80 of
/// the big-endian value), which is all that is promised of the result.
#[verifier::external_body]
fn generate_id() -> (r: u128)
    ensures
        (r >> 76) & 0xf == 4,
{
    uuid::Uuid::new_v4().as_u128()
}

/// Relies on `chrono::Utc::now` and `DateTime::timestamp_micros`: the time
/// of the call. Nothing is promised of the value.
#[verifier::external_body]
fn now_micros() -> (r: i64) {
    chrono::Utc::now().timestamp_micros()
}

/// Validate a submission and assemble the record to persist: the decoded
/// `name` and `email`, a fresh identifier, and the current time. Rejected
/// submissions short-circuit with the error the grammar gives.
pub fn plan_subscription(body: &[u8]) -> (r: Result<Subscriber, FormError>)
    ensures
        match r {
            Ok(s) => spec_parse_form(body@) == Ok::<_, FormError>((s.name@, s.email@)) && (s.id
                >> 76) & 0xf == 4,
            Err(e) => spec_parse_form(body@) == Err::<(Seq<u8>, Seq<u8>), _>(e),
        },
{
    match parse_form(body) {
        Ok(f) => {
            let FormData { name, email } = f;
            Ok(
                Subscriber {
                    id: generate_id(),
                    email,
                    name,
                    subscribed_at_micros: now_micros(),
                },
            )
        },
        Err(e) => Err(e),
    }
}

/// The subscriptions table, as the store keeps it: append-only rows keyed by
/// a unique identifier.
pub struct SubscriberTable {
    pub rows: Vec<Subscriber>,
}

impl SubscriberTable {
    /// Some row already carries this identifier.
    pub open spec fn has_id(self, id: u128) -> bool {
        exists|j: int| 0 <= j < self.rows@.len() && self.rows@[j].id == id
    }

    pub fn new() -> (r: Self)
        ensures
            r.rows@.len() == 0,
    {
        SubscriberTable { rows: Vec::new() }
    }

    /// One atomic insert: appends the record, unless its identifier is
    /// already present, in which case nothing changes.
    pub fn insert(&mut self, s: Subscriber) -> (r: bool)
        ensures
            r == !old(self).has_id(s.id),
            r ==> final(self).rows@ == old(self).rows@.push(s),
            !r ==> final(self).rows@ == old(self).rows@,
    {
        let mut j: usize = 0;
        while j < self.rows.len()
            invariant
                0 <= j <= self.rows@.len(),
                *self == *old(self),
                forall|t: int| 0 <= t < j ==> self.rows@[t].id != s.id,
            decreases self.rows@.len() - j,
        {
            if self.rows[j].id == s.id {
                return false;
            }
            j = j + 1;
        }
        self.rows.push(s);
        true
    }
}

/// What one POST to the intake route does to the table and reports back:
/// a rejected submission leaves the table alone and answers 400; an accepted
/// one either appends exactly one matching row and answers 200, or — when the
/// store refuses the insert — leaves the table alone and answers 500.
pub open spec fn subscribe_transition(
    pre: Seq<Subscriber>,
    post: Seq<Subscriber>,
    body: Seq<u8>,
    r: Response,
) -> bool {
    match spec_parse_form(body) {
        Err(_) => r.status == 400 && post == pre,
        Ok(p) => (r.status == 200 && post.len() == pre.len() + 1 && post.subrange(
            0,
            pre.len() as int,
        ) == pre && post.last().name@ == p.0 && post.last().email@ == p.1 && (post.last().id >> 76)
            & 0xf == 4) || (r.status == 500 && post == pre),
    }
}

/// The deterministic heart of the intake: given the submission and the
/// identifier and timestamp already drawn, decide and apply the outcome.
/// Success is owed whenever the submission is well-formed and the identifier
/// is fresh; the 500 arm is reached only on an identifier collision.
pub fn subscribe_with(table: &mut SubscriberTable, body: &[u8], id: u128, ts: i64) -> (r: Response)
    requires
        (id >> 76) & 0xf == 4,
    ensures
        subscribe_transition(old(table).rows@, final(table).rows@, body@, r),
        r.body@.len() == 0,
        spec_parse_form(body@) is Ok && !old(table).has_id(id) ==> r.status == 200
            && final(table).rows@.last().id == id
            && final(table).rows@.last().subscribed_at_micros == ts,
        spec_parse_form(body@) is Ok && old(table).has_id(id) ==> r.status == 500,
{
    match parse_form(body) {
        Err(_) => Response { status: 400, body: Vec::new() },
        Ok(f) => {
            let FormData { name, email } = f;
            let row = Subscriber { id, email, name, subscribed_at_micros: ts };
            let ok = table.insert(row);
            proof {
                if ok {
                    assert(final(table).rows@.subrange(0, old(table).rows@.len() as int)
                        =~= old(table).rows@);
                }
            }
            if ok {
                Response { status: 200, body: Vec::new() }
            } else {
                Response { status: 500, body: Vec::new() }
            }
        },
    }
}

/// One POST /subscriptions against the table model: draw the identifier and
/// the timestamp, then run the deterministic intake.
pub fn subscribe(table: &mut SubscriberTable, body: &[u8]) -> (r: Response)
    ensures
        subscribe_transition(old(table).rows@, final(table).rows@, body@, r),
        r.body@.len() == 0,
{
    let id = generate_id();
    let ts = now_micros();
    subscribe_with(table, body, id, ts)
}

/// Map the store's answer to the HTTP-level outcome: success is an empty 200,
/// a refused insert an empty 500.
pub fn response_for_insert(ok: bool) -> (r: Response)
    ensures
        r.status == (if ok {
            200u16
        } else {
            500u16
        }),
        r.body@.len() == 0,
{
    if ok {
        Response { status: 200, body: Vec::new() }
    } else {
        Response { status: 500, body: Vec::new() }
    }
}

} // verus!
