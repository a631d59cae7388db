//! The two routes of the service, and the dispatch between them: a GET
//! liveness probe and the POST intake endpoint.

use vstd::prelude::*;

use crate::Response;
use crate::bytes_eq;
use crate::subscription::{SubscriberTable, subscribe, subscribe_transition};

verus! {

/// The request methods the service distinguishes.
#[derive(Clone, Copy, Debug, PartialEq, Eq, Structural)]
pub enum Method {
    Get,
    Post,
}

/// The bytes of `/health_check`.
pub open spec fn health_check_path() -> Seq<u8> {
    seq![47u8, 104u8, 101u8, 97u8, 108u8, 116u8, 104u8, 95u8, 99u8, 104u8, 101u8, 99u8, 107u8]
}

/// The bytes of `/subscriptions`.
pub open spec fn subscriptions_path() -> Seq<u8> {
    seq![47u8, 115u8, 117u8, 98u8, 115u8, 99u8, 114u8, 105u8, 112u8, 116u8, 105u8, 111u8, 110u8, 115u8]
}

fn health_check_path_exec() -> (r: Vec<u8>)
    ensures
        r@ == health_check_path(),
{
    let mut v: Vec<u8> = Vec::new();
    v.push(47);
    v.push(104);
    v.push(101);
    v.push(97);
    v.push(108);
    v.push(116);
    v.push(104);
    v.push(95);
    v.push(99);
    v.push(104);
    v.push(101);
    v.push(99);
    v.push(107);
    proof {
        assert(v@ =~= health_check_path());
    }
    v
}

fn subscriptions_path_exec() -> (r: Vec<u8>)
    ensures
        r@ == subscriptions_path(),
{
    let mut v: Vec<u8> = Vec::new();
    v.push(47);
    v.push(115);
    v.push(117);
    v.push(98);
    v.push(115);
    v.push(99);
    v.push(114);
    v.push(105);
    v.push(112);
    v.push(116);
    v.push(105);
    v.push(111);
    v.push(110);
    v.push(115);
    proof {
        assert(v@ =~= subscriptions_path());
    }
    v
}

/// Liveness probe: always succeeds with an empty body and touches nothing.
pub fn health_check() -> (r: Response)
    ensures
        r.status == 200,
        r.body@.len() == 0,
{
    Response { status: 200, body: Vec::new() }
}

/// Dispatch one request against the table model. Exactly two routes are
/// registered: the liveness probe never reads or writes the table, the
/// intake route behaves as `subscribe` promises, and everything else is an
/// empty 404 without side effects.
pub fn handle_request(
    table: &mut SubscriberTable,
    method: Method,
    path: &[u8],
    body: &[u8],
) -> (r: Response)
    ensures
        method == Method::Get && path@ == health_check_path() ==> r.status == 200 && r.body@.len()
            == 0 && final(table).rows@ == old(table).rows@,
        method == Method::Post && path@ == subscriptions_path() ==> subscribe_transition(
            old(table).rows@,
            final(table).rows@,
            body@,
            r,
        ),
        !(method == Method::Get && path@ == health_check_path()) && !(method == Method::Post
            && path@ == subscriptions_path()) ==> r.status == 404 && r.body@.len() == 0
            && final(table).rows@ == old(table).rows@,
        r.body@.len() == 0,
{
    let hc = health_check_path_exec();
    let subs = subscriptions_path_exec();
    match method {
        Method::Get => {
            if bytes_eq(path, hc.as_slice()) {
                health_check()
            } else {
                Response { status: 404, body: Vec::new() }
            }
        },
        Method::Post => {
            if bytes_eq(path, subs.as_slice()) {
                subscribe(table, body)
            } else {
                Response { status: 404, body: Vec::new() }
            }
        },
    }
}

} // verus!
