//! Configuration: merging a base source, an environment overlay and
//! prefixed environment-variable overrides into one settings snapshot,
//! coercing typed fields, and assembling connection strings.
//!
//! Every source is a flat list of `key`/`value` pairs over dotted keys such
//! as `database.port`. An environment variable overrides an overlay value,
//! which overrides a base value. The credential is held in a wrapper whose
//! only path to the raw bytes is an explicit `expose_secret` call.

use vstd::prelude::*;

verus! {

/// A sensitive value: nothing renders it; the raw bytes come out only
/// through `expose_secret`, and log-friendly display is the fixed marker.
pub struct SecretValue {
    bytes: Vec<u8>,
}

impl View for SecretValue {
    type V = Seq<u8>;

    closed spec fn view(&self) -> Seq<u8> {
        self.bytes@
    }
}

impl SecretValue {
    pub fn new(bytes: Vec<u8>) -> (r: Self)
        ensures
            r@ == bytes@,
    {
        SecretValue { bytes }
    }

    /// The deliberate opt-in: hands the raw bytes back.
    pub fn expose_secret(&self) -> (r: &Vec<u8>)
        ensures
            r@ == self@,
    {
        &self.bytes
    }

    /// What any log or message shows in place of the value: the marker,
    /// whatever the secret holds.
    pub fn redacted(&self) -> (r: Vec<u8>)
        ensures
            r@ == redacted_marker(),
    {
        redacted_marker_exec()
    }
}

/// One key/value pair of a configuration source.
pub struct ConfigPair {
    pub key: Vec<u8>,
    pub value: Vec<u8>,
}

pub open spec fn cpairs_view(v: Seq<ConfigPair>) -> Seq<(Seq<u8>, Seq<u8>)> {
    v.map_values(|p: ConfigPair| (p.key@, p.value@))
}

/// The value of the first pair carrying `key`, if any.
pub open spec fn spec_lookup(pairs: Seq<(Seq<u8>, Seq<u8>)>, key: Seq<u8>) -> Option<Seq<u8>>
    decreases pairs.len(),
{
    if pairs.len() == 0 {
        None
    } else if pairs[0].0 == key {
        Some(pairs[0].1)
    } else {
        spec_lookup(pairs.skip(1), key)
    }
}

/// The merged value of `key`: an environment override wins over the overlay,
/// the overlay over the base.
pub open spec fn spec_merged(
    base: Seq<(Seq<u8>, Seq<u8>)>,
    overlay: Seq<(Seq<u8>, Seq<u8>)>,
    env: Seq<(Seq<u8>, Seq<u8>)>,
    key: Seq<u8>,
) -> Option<Seq<u8>> {
    if spec_lookup(env, key) is Some {
        spec_lookup(env, key)
    } else if spec_lookup(overlay, key) is Some {
        spec_lookup(overlay, key)
    } else {
        spec_lookup(base, key)
    }
}

/// The key `application.host`.
pub open spec fn app_host_key() -> Seq<u8> {
    seq![97u8, 112u8, 112u8, 108u8, 105u8, 99u8, 97u8, 116u8, 105u8, 111u8, 110u8, 46u8, 104u8, 111u8, 115u8, 116u8]
}

/// The bytes of `app_host_key`, for executable use.
pub fn app_host_key_exec() -> (r: Vec<u8>)
    ensures
        r@ == app_host_key(),
{
    let mut v: Vec<u8> = Vec::new();
    v.push(97);
    v.push(112);
    v.push(112);
    v.push(108);
    v.push(105);
    v.push(99);
    v.push(97);
    v.push(116);
    v.push(105);
    v.push(111);
    v.push(110);
    v.push(46);
    v.push(104);
    v.push(111);
    v.push(115);
    v.push(116);
    proof {
        assert(v@ =~= app_host_key());
    }
    v
}

/// The key `application.port`.
pub open spec fn app_port_key() -> Seq<u8> {
    seq![97u8, 112u8, 112u8, 108u8, 105u8, 99u8, 97u8, 116u8, 105u8, 111u8, 110u8, 46u8, 112u8, 111u8, 114u8, 116u8]
}

/// The bytes of `app_port_key`, for executable use.
pub fn app_port_key_exec() -> (r: Vec<u8>)
    ensures
        r@ == app_port_key(),
{
    let mut v: Vec<u8> = Vec::new();
    v.push(97);
    v.push(112);
    v.push(112);
    v.push(108);
    v.push(105);
    v.push(99);
    v.push(97);
    v.push(116);
    v.push(105);
    v.push(111);
    v.push(110);
    v.push(46);
    v.push(112);
    v.push(111);
    v.push(114);
    v.push(116);
    proof {
        assert(v@ =~= app_port_key());
    }
    v
}

/// The key `database.host`.
pub open spec fn db_host_key() -> Seq<u8> {
    seq![100u8, 97u8, 116u8, 97u8, 98u8, 97u8, 115u8, 101u8, 46u8, 104u8, 111u8, 115u8, 116u8]
}

/// The bytes of `db_host_key`, for executable use.
pub fn db_host_key_exec() -> (r: Vec<u8>)
    ensures
        r@ == db_host_key(),
{
    let mut v: Vec<u8> = Vec::new();
    v.push(100);
    v.push(97);
    v.push(116);
    v.push(97);
    v.push(98);
    v.push(97);
    v.push(115);
    v.push(101);
    v.push(46);
    v.push(104);
    v.push(111);
    v.push(115);
    v.push(116);
    proof {
        assert(v@ =~= db_host_key());
    }
    v
}

/// The key `database.port`.
pub open spec fn db_port_key() -> Seq<u8> {
    seq![100u8, 97u8, 116u8, 97u8, 98u8, 97u8, 115u8, 101u8, 46u8, 112u8, 111u8, 114u8, 116u8]
}

/// The bytes of `db_port_key`, for executable use.
pub fn db_port_key_exec() -> (r: Vec<u8>)
    ensures
        r@ == db_port_key(),
{
    let mut v: Vec<u8> = Vec::new();
    v.push(100);
    v.push(97);
    v.push(116);
    v.push(97);
    v.push(98);
    v.push(97);
    v.push(115);
    v.push(101);
    v.push(46);
    v.push(112);
    v.push(111);
    v.push(114);
    v.push(116);
    proof {
        assert(v@ =~= db_port_key());
    }
    v
}

/// The key `database.username`.
pub open spec fn db_user_key() -> Seq<u8> {
    seq![100u8, 97u8, 116u8, 97u8, 98u8, 97u8, 115u8, 101u8, 46u8, 117u8, 115u8, 101u8, 114u8, 110u8, 97u8, 109u8, 101u8]
}

/// The bytes of `db_user_key`, for executable use.
pub fn db_user_key_exec() -> (r: Vec<u8>)
    ensures
        r@ == db_user_key(),
{
    let mut v: Vec<u8> = Vec::new();
    v.push(100);
    v.push(97);
    v.push(116);
    v.push(97);
    v.push(98);
    v.push(97);
    v.push(115);
    v.push(101);
    v.push(46);
    v.push(117);
    v.push(115);
    v.push(101);
    v.push(114);
    v.push(110);
    v.push(97);
    v.push(109);
    v.push(101);
    proof {
        assert(v@ =~= db_user_key());
    }
    v
}

/// The key `database.password`.
pub open spec fn db_password_key() -> Seq<u8> {
    seq![100u8, 97u8, 116u8, 97u8, 98u8, 97u8, 115u8, 101u8, 46u8, 112u8, 97u8, 115u8, 115u8, 119u8, 111u8, 114u8, 100u8]
}

/// The bytes of `db_password_key`, for executable use.
pub fn db_password_key_exec() -> (r: Vec<u8>)
    ensures
        r@ == db_password_key(),
{
    let mut v: Vec<u8> = Vec::new();
    v.push(100);
    v.push(97);
    v.push(116);
    v.push(97);
    v.push(98);
    v.push(97);
    v.push(115);
    v.push(101);
    v.push(46);
    v.push(112);
    v.push(97);
    v.push(115);
    v.push(115);
    v.push(119);
    v.push(111);
    v.push(114);
    v.push(100);
    proof {
        assert(v@ =~= db_password_key());
    }
    v
}

/// The key `database.database_name`.
pub open spec fn db_name_key() -> Seq<u8> {
    seq![100u8, 97u8, 116u8, 97u8, 98u8, 97u8, 115u8, 101u8, 46u8, 100u8, 97u8, 116u8, 97u8, 98u8, 97u8, 115u8, 101u8, 95u8, 110u8, 97u8, 109u8, 101u8]
}

/// The bytes of `db_name_key`, for executable use.
pub fn db_name_key_exec() -> (r: Vec<u8>)
    ensures
        r@ == db_name_key(),
{
    let mut v: Vec<u8> = Vec::new();
    v.push(100);
    v.push(97);
    v.push(116);
    v.push(97);
    v.push(98);
    v.push(97);
    v.push(115);
    v.push(101);
    v.push(46);
    v.push(100);
    v.push(97);
    v.push(116);
    v.push(97);
    v.push(98);
    v.push(97);
    v.push(115);
    v.push(101);
    v.push(95);
    v.push(110);
    v.push(97);
    v.push(109);
    v.push(101);
    proof {
        assert(v@ =~= db_name_key());
    }
    v
}

/// The key `database.require_ssl`.
pub open spec fn db_ssl_key() -> Seq<u8> {
    seq![100u8, 97u8, 116u8, 97u8, 98u8, 97u8, 115u8, 101u8, 46u8, 114u8, 101u8, 113u8, 117u8, 105u8, 114u8, 101u8, 95u8, 115u8, 115u8, 108u8]
}

/// The bytes of `db_ssl_key`, for executable use.
pub fn db_ssl_key_exec() -> (r: Vec<u8>)
    ensures
        r@ == db_ssl_key(),
{
    let mut v: Vec<u8> = Vec::new();
    v.push(100);
    v.push(97);
    v.push(116);
    v.push(97);
    v.push(98);
    v.push(97);
    v.push(115);
    v.push(101);
    v.push(46);
    v.push(114);
    v.push(101);
    v.push(113);
    v.push(117);
    v.push(105);
    v.push(114);
    v.push(101);
    v.push(95);
    v.push(115);
    v.push(115);
    v.push(108);
    proof {
        assert(v@ =~= db_ssl_key());
    }
    v
}

/// The environment-variable prefix `APP_`.
pub open spec fn env_prefix() -> Seq<u8> {
    seq![65u8, 80u8, 80u8, 95u8]
}

/// The bytes of `env_prefix`, for executable use.
pub fn env_prefix_exec() -> (r: Vec<u8>)
    ensures
        r@ == env_prefix(),
{
    let mut v: Vec<u8> = Vec::new();
    v.push(65);
    v.push(80);
    v.push(80);
    v.push(95);
    proof {
        assert(v@ =~= env_prefix());
    }
    v
}

/// The boolean token `true`.
pub open spec fn true_lit() -> Seq<u8> {
    seq![116u8, 114u8, 117u8, 101u8]
}

/// The bytes of `true_lit`, for executable use.
pub fn true_lit_exec() -> (r: Vec<u8>)
    ensures
        r@ == true_lit(),
{
    let mut v: Vec<u8> = Vec::new();
    v.push(116);
    v.push(114);
    v.push(117);
    v.push(101);
    proof {
        assert(v@ =~= true_lit());
    }
    v
}

/// The boolean token `false`.
pub open spec fn false_lit() -> Seq<u8> {
    seq![102u8, 97u8, 108u8, 115u8, 101u8]
}

/// The bytes of `false_lit`, for executable use.
pub fn false_lit_exec() -> (r: Vec<u8>)
    ensures
        r@ == false_lit(),
{
    let mut v: Vec<u8> = Vec::new();
    v.push(102);
    v.push(97);
    v.push(108);
    v.push(115);
    v.push(101);
    proof {
        assert(v@ =~= false_lit());
    }
    v
}

/// The scheme `postgres://`.
pub open spec fn pg_scheme() -> Seq<u8> {
    seq![112u8, 111u8, 115u8, 116u8, 103u8, 114u8, 101u8, 115u8, 58u8, 47u8, 47u8]
}

/// The bytes of `pg_scheme`, for executable use.
pub fn pg_scheme_exec() -> (r: Vec<u8>)
    ensures
        r@ == pg_scheme(),
{
    let mut v: Vec<u8> = Vec::new();
    v.push(112);
    v.push(111);
    v.push(115);
    v.push(116);
    v.push(103);
    v.push(114);
    v.push(101);
    v.push(115);
    v.push(58);
    v.push(47);
    v.push(47);
    proof {
        assert(v@ =~= pg_scheme());
    }
    v
}

/// The token `?sslmode=require`.
pub open spec fn ssl_require_token() -> Seq<u8> {
    seq![63u8, 115u8, 115u8, 108u8, 109u8, 111u8, 100u8, 101u8, 61u8, 114u8, 101u8, 113u8, 117u8, 105u8, 114u8, 101u8]
}

/// The bytes of `ssl_require_token`, for executable use.
pub fn ssl_require_token_exec() -> (r: Vec<u8>)
    ensures
        r@ == ssl_require_token(),
{
    let mut v: Vec<u8> = Vec::new();
    v.push(63);
    v.push(115);
    v.push(115);
    v.push(108);
    v.push(109);
    v.push(111);
    v.push(100);
    v.push(101);
    v.push(61);
    v.push(114);
    v.push(101);
    v.push(113);
    v.push(117);
    v.push(105);
    v.push(114);
    v.push(101);
    proof {
        assert(v@ =~= ssl_require_token());
    }
    v
}

/// The token `?sslmode=prefer`.
pub open spec fn ssl_prefer_token() -> Seq<u8> {
    seq![63u8, 115u8, 115u8, 108u8, 109u8, 111u8, 100u8, 101u8, 61u8, 112u8, 114u8, 101u8, 102u8, 101u8, 114u8]
}

/// The bytes of `ssl_prefer_token`, for executable use.
pub fn ssl_prefer_token_exec() -> (r: Vec<u8>)
    ensures
        r@ == ssl_prefer_token(),
{
    let mut v: Vec<u8> = Vec::new();
    v.push(63);
    v.push(115);
    v.push(115);
    v.push(108);
    v.push(109);
    v.push(111);
    v.push(100);
    v.push(101);
    v.push(61);
    v.push(112);
    v.push(114);
    v.push(101);
    v.push(102);
    v.push(101);
    v.push(114);
    proof {
        assert(v@ =~= ssl_prefer_token());
    }
    v
}

/// The redaction marker `[REDACTED]`.
pub open spec fn redacted_marker() -> Seq<u8> {
    seq![91u8, 82u8, 69u8, 68u8, 65u8, 67u8, 84u8, 69u8, 68u8, 93u8]
}

/// The bytes of `redacted_marker`, for executable use.
pub fn redacted_marker_exec() -> (r: Vec<u8>)
    ensures
        r@ == redacted_marker(),
{
    let mut v: Vec<u8> = Vec::new();
    v.push(91);
    v.push(82);
    v.push(69);
    v.push(68);
    v.push(65);
    v.push(67);
    v.push(84);
    v.push(69);
    v.push(68);
    v.push(93);
    proof {
        assert(v@ =~= redacted_marker());
    }
    v
}

/// First-match lookup, exactly as `spec_lookup` reads it.
pub fn lookup(pairs: &Vec<ConfigPair>, key: &[u8]) -> (r: Option<Vec<u8>>)
    ensures
        match r {
            Some(v) => spec_lookup(cpairs_view(pairs@), key@) == Some(v@),
            None => spec_lookup(cpairs_view(pairs@), key@) is None,
        },
{
    let ghost pv = cpairs_view(pairs@);
    let mut i: usize = 0;
    proof {
        assert(pv.skip(0) =~= pv);
    }
    while i < pairs.len()
        invariant
            0 <= i <= pairs@.len(),
            pv == cpairs_view(pairs@),
            spec_lookup(pv, key@) == spec_lookup(pv.skip(i as int), key@),
        decreases pairs@.len() - i,
    {
        proof {
            assert(pv.skip(i as int)[0] == pv[i as int]);
            assert(pv.skip(i as int).skip(1) =~= pv.skip(i + 1));
        }
        if crate::bytes_eq(pairs[i].key.as_slice(), key) {
            return Some(pairs[i].value.clone());
        }
        i = i + 1;
    }
    proof {
        assert(pv.skip(i as int) =~= Seq::<(Seq<u8>, Seq<u8>)>::empty());
    }
    None
}

/// Merged lookup over the three sources, exactly as `spec_merged` reads it.
pub fn merged_lookup(
    base: &Vec<ConfigPair>,
    overlay: &Vec<ConfigPair>,
    env: &Vec<ConfigPair>,
    key: &[u8],
) -> (r: Option<Vec<u8>>)
    ensures
        match r {
            Some(v) => spec_merged(
                cpairs_view(base@),
                cpairs_view(overlay@),
                cpairs_view(env@),
                key@,
            ) == Some(v@),
            None => spec_merged(
                cpairs_view(base@),
                cpairs_view(overlay@),
                cpairs_view(env@),
                key@,
            ) is None,
        },
{
    match lookup(env, key) {
        Some(v) => Some(v),
        None => match lookup(overlay, key) {
            Some(v) => Some(v),
            None => lookup(base, key),
        },
    }
}

/// ASCII lowercase of one byte.
pub open spec fn lower_byte(b: u8) -> u8 {
    if 65 <= b && b <= 90 {
        (b + 32) as u8
    } else {
        b
    }
}

/// The dotted key an environment-variable tail stands for: `__` becomes `.`,
/// letters are lowercased.
pub open spec fn spec_env_tail(s: Seq<u8>) -> Seq<u8>
    decreases s.len(),
{
    if s.len() == 0 {
        Seq::empty()
    } else if s.len() >= 2 && s[0] == 95 && s[1] == 95 {
        seq![46u8] + spec_env_tail(s.skip(2))
    } else {
        seq![lower_byte(s[0])] + spec_env_tail(s.skip(1))
    }
}

/// The dotted key an environment variable overrides: only names carrying the
/// recognized prefix take part, with the tail rewritten by `spec_env_tail`.
pub open spec fn spec_normalize_env_key(k: Seq<u8>) -> Option<Seq<u8>> {
    if k.len() >= 4 && k.take(4) == env_prefix() {
        Some(spec_env_tail(k.skip(4)))
    } else {
        None
    }
}

/// Rewrite one environment-variable name, exactly as `spec_normalize_env_key`
/// reads it.
pub fn normalize_env_key(k: &[u8]) -> (r: Option<Vec<u8>>)
    ensures
        match r {
            Some(v) => spec_normalize_env_key(k@) == Some(v@),
            None => spec_normalize_env_key(k@) is None,
        },
{
    let pre = env_prefix_exec();
    if k.len() < 4 {
        proof {
            assert(spec_normalize_env_key(k@) is None);
        }
        return None;
    }
    let head = vstd::slice::slice_subrange(k, 0, 4);
    if !crate::bytes_eq(head, pre.as_slice()) {
        proof {
            assert(k@.take(4) != env_prefix());
        }
        return None;
    }
    proof {
        assert(k@.take(4) == env_prefix());
    }
    let mut acc: Vec<u8> = Vec::new();
    let mut i: usize = 4;
    proof {
        assert(k@.skip(4) =~= k@.skip(4));
        assert(acc@ + spec_env_tail(k@.skip(4)) =~= spec_env_tail(k@.skip(4)));
    }
    while i < k.len()
        invariant
            4 <= i <= k@.len(),
            spec_env_tail(k@.skip(4)) == acc@ + spec_env_tail(k@.skip(i as int)),
        decreases k@.len() - i,
    {
        let ghost suf = k@.skip(i as int);
        proof {
            assert(suf[0] == k@[i as int]);
        }
        if k.len() - i >= 2 && k[i] == 95 && k[i + 1] == 95 {
            proof {
                assert(suf[1] == k@[i + 1]);
                assert(suf.skip(2) =~= k@.skip(i + 2));
                assert(acc@ + (seq![46u8] + spec_env_tail(k@.skip(i + 2))) =~= acc@.push(46u8)
                    + spec_env_tail(k@.skip(i + 2)));
            }
            acc.push(46);
            i = i + 2;
        } else {
            let b = k[i];
            let low: u8 = if 65 <= b && b <= 90 {
                b + 32
            } else {
                b
            };
            proof {
                assert(suf.skip(1) =~= k@.skip(i + 1));
                assert(acc@ + (seq![lower_byte(b)] + spec_env_tail(k@.skip(i + 1)))
                    =~= acc@.push(lower_byte(b)) + spec_env_tail(k@.skip(i + 1)));
            }
            acc.push(low);
            i = i + 1;
        }
    }
    proof {
        assert(k@.skip(i as int) =~= Seq::<u8>::empty());
        assert(acc@ + Seq::<u8>::empty() =~= acc@);
    }
    Some(acc)
}

/// The environment pairs that take part in the merge, with keys rewritten.
pub open spec fn spec_normalize_env_pairs(ps: Seq<(Seq<u8>, Seq<u8>)>) -> Seq<(Seq<u8>, Seq<u8>)>
    decreases ps.len(),
{
    if ps.len() == 0 {
        Seq::empty()
    } else {
        let rest = spec_normalize_env_pairs(ps.skip(1));
        match spec_normalize_env_key(ps[0].0) {
            Some(k) => seq![(k, ps[0].1)] + rest,
            None => rest,
        }
    }
}

/// Rewrite the raw environment into merge-ready pairs, exactly as
/// `spec_normalize_env_pairs` reads it.
pub fn normalize_env_pairs(raw: &Vec<ConfigPair>) -> (r: Vec<ConfigPair>)
    ensures
        cpairs_view(r@) == spec_normalize_env_pairs(cpairs_view(raw@)),
{
    let ghost rv = cpairs_view(raw@);
    let mut acc: Vec<ConfigPair> = Vec::new();
    let mut i: usize = 0;
    proof {
        assert(rv.skip(0) =~= rv);
        assert(cpairs_view(acc@) + spec_normalize_env_pairs(rv) =~= spec_normalize_env_pairs(rv));
    }
    while i < raw.len()
        invariant
            0 <= i <= raw@.len(),
            rv == cpairs_view(raw@),
            spec_normalize_env_pairs(rv) == cpairs_view(acc@) + spec_normalize_env_pairs(
                rv.skip(i as int),
            ),
        decreases raw@.len() - i,
    {
        let ghost suf = rv.skip(i as int);
        proof {
            assert(suf[0] == rv[i as int]);
            assert(suf.skip(1) =~= rv.skip(i + 1));
        }
        match normalize_env_key(raw[i].key.as_slice()) {
            Some(k) => {
                let ghost pr = (k@, raw@[i as int].value@);
                acc.push(ConfigPair { key: k, value: raw[i].value.clone() });
                proof {
                    let anew = cpairs_view(acc@);
                    let aold = cpairs_view(acc@.drop_last());
                    assert(anew =~= aold.push(pr));
                    assert(aold + (seq![pr] + spec_normalize_env_pairs(rv.skip(i + 1))) =~= anew
                        + spec_normalize_env_pairs(rv.skip(i + 1)));
                }
            },
            None => {},
        }
        i = i + 1;
    }
    proof {
        assert(rv.skip(i as int) =~= Seq::<(Seq<u8>, Seq<u8>)>::empty());
        assert(cpairs_view(acc@) + Seq::<(Seq<u8>, Seq<u8>)>::empty() =~= cpairs_view(acc@));
    }
    acc
}

/// A non-empty run of decimal digits.
pub open spec fn is_dec_digits(s: Seq<u8>) -> bool {
    s.len() > 0 && forall|k: int| 0 <= k < s.len() ==> 48 <= s[k] && s[k] <= 57
}

/// The number a digit run denotes.
pub open spec fn dec_value(s: Seq<u8>) -> nat
    decreases s.len(),
{
    if s.len() == 0 {
        0
    } else {
        dec_value(s.drop_last()) * 10 + (if 48 <= s.last() && s.last() <= 57 {
            (s.last() - 48) as nat
        } else {
            0
        })
    }
}

/// The port a value denotes: a digit run whose number fits in sixteen bits.
pub open spec fn spec_parse_u16(s: Seq<u8>) -> Option<u16> {
    if is_dec_digits(s) && dec_value(s) <= 65535 {
        Some(dec_value(s) as u16)
    } else {
        None
    }
}

proof fn lemma_dec_value_mono(s: Seq<u8>, j: int)
    requires
        0 <= j <= s.len(),
    ensures
        dec_value(s) >= dec_value(s.take(j)),
    decreases s.len() - j,
{
    if j == s.len() {
        assert(s.take(j) =~= s);
    } else {
        assert(s.take(j + 1).drop_last() =~= s.take(j));
        assert(dec_value(s.take(j + 1)) >= dec_value(s.take(j)));
        lemma_dec_value_mono(s, j + 1);
    }
}

/// Coerce a port value, exactly as `spec_parse_u16` reads it.
pub fn parse_u16(s: &[u8]) -> (r: Option<u16>)
    ensures
        r == spec_parse_u16(s@),
{
    if s.len() == 0 {
        return None;
    }
    let mut acc: u32 = 0;
    let mut i: usize = 0;
    proof {
        assert(s@.take(0) =~= Seq::<u8>::empty());
    }
    while i < s.len()
        invariant
            0 <= i <= s@.len(),
            acc == dec_value(s@.take(i as int)),
            acc <= 65535,
            forall|k: int| 0 <= k < i ==> 48 <= s@[k] && s@[k] <= 57,
        decreases s@.len() - i,
    {
        let b = s[i];
        if b < 48 || b > 57 {
            proof {
                assert(!is_dec_digits(s@));
            }
            return None;
        }
        let d: u32 = (b - 48) as u32;
        proof {
            assert(s@.take(i + 1).drop_last() =~= s@.take(i as int));
            assert(s@.take(i + 1).last() == s@[i as int]);
            assert(dec_value(s@.take(i + 1)) == acc * 10 + d);
        }
        if acc > 6553 || (acc == 6553 && d > 5) {
            proof {
                assert(dec_value(s@.take(i + 1)) > 65535);
                lemma_dec_value_mono(s@, i + 1);
                assert(dec_value(s@) > 65535);
            }
            return None;
        }
        acc = acc * 10 + d;
        i = i + 1;
    }
    proof {
        assert(s@.take(i as int) =~= s@);
        assert(is_dec_digits(s@));
    }
    Some(acc as u16)
}

/// The flag a value denotes: exactly `true` or `false`.
pub open spec fn spec_parse_bool(s: Seq<u8>) -> Option<bool> {
    if s == true_lit() {
        Some(true)
    } else if s == false_lit() {
        Some(false)
    } else {
        None
    }
}

/// Coerce a flag value, exactly as `spec_parse_bool` reads it.
pub fn parse_bool(s: &[u8]) -> (r: Option<bool>)
    ensures
        r == spec_parse_bool(s@),
{
    let t = true_lit_exec();
    let f = false_lit_exec();
    if crate::bytes_eq(s, t.as_slice()) {
        Some(true)
    } else if crate::bytes_eq(s, f.as_slice()) {
        Some(false)
    } else {
        None
    }
}

/// The decimal digits of a number, most significant first.
pub open spec fn dec_digits_of(n: nat) -> Seq<u8>
    decreases n,
{
    if n < 10 {
        seq![(48 + n) as u8]
    } else {
        dec_digits_of(n / 10) + seq![(48 + n % 10) as u8]
    }
}

/// Render a port in decimal, exactly as `dec_digits_of` spells it.
pub fn format_u16(n: u16) -> (r: Vec<u8>)
    ensures
        r@ == dec_digits_of(n as nat),
    decreases n,
{
    if n < 10 {
        let mut v: Vec<u8> = Vec::new();
        v.push(48 + n as u8);
        proof {
            assert(v@ =~= dec_digits_of(n as nat));
        }
        v
    } else {
        let mut v = format_u16(n / 10);
        v.push(48 + (n % 10) as u8);
        proof {
            assert(v@ =~= dec_digits_of(n as nat));
        }
        v
    }
}

proof fn lemma_dec_digits_are_digits(n: nat)
    ensures
        is_dec_digits(dec_digits_of(n)),
    decreases n,
{
    if n < 10 {
    } else {
        lemma_dec_digits_are_digits(n / 10);
        let s = dec_digits_of(n / 10) + seq![(48 + n % 10) as u8];
        assert forall|k: int| 0 <= k < s.len() implies 48 <= s[k] && s[k] <= 57 by {
            if k < dec_digits_of(n / 10).len() {
                assert(s[k] == dec_digits_of(n / 10)[k]);
            }
        }
    }
}

/// A rendered port reads back as itself: the decimal digits of `n` denote
/// `n`, so the port inside a connection string parses to the configured one.
pub proof fn lemma_port_round_trip(n: nat)
    ensures
        n <= 65535 ==> spec_parse_u16(dec_digits_of(n)) == Some(n as u16),
        dec_value(dec_digits_of(n)) == n,
    decreases n,
{
    lemma_dec_digits_are_digits(n);
    if n < 10 {
        let s = dec_digits_of(n);
        assert(s.drop_last() =~= Seq::<u8>::empty());
        assert(dec_value(Seq::<u8>::empty()) == 0);
    } else {
        lemma_port_round_trip(n / 10);
        let s = dec_digits_of(n);
        assert(s.drop_last() =~= dec_digits_of(n / 10));
        assert(s.last() == (48 + n % 10) as u8);
        assert(dec_value(s) == dec_value(dec_digits_of(n / 10)) * 10 + n % 10);
    }
}

/// Append a slice to a byte vector.
pub fn append_bytes(dst: &mut Vec<u8>, src: &[u8])
    ensures
        final(dst)@ == old(dst)@ + src@,
{
    let mut i: usize = 0;
    proof {
        assert(dst@ + src@.take(0) =~= dst@);
    }
    while i < src.len()
        invariant
            0 <= i <= src@.len(),
            dst@ == old(dst)@ + src@.take(i as int),
        decreases src@.len() - i,
    {
        dst.push(src[i]);
        proof {
            assert(old(dst)@ + src@.take(i + 1) =~= (old(dst)@ + src@.take(i as int)).push(
                src@[i as int],
            ));
        }
        i = i + 1;
    }
    proof {
        assert(src@.take(i as int) =~= src@);
    }
}

/// A value with leading spaces stripped.
pub open spec fn strip_spaces(s: Seq<u8>) -> Seq<u8>
    decreases s.len(),
{
    if s.len() > 0 && s[0] == 32 {
        strip_spaces(s.skip(1))
    } else {
        s
    }
}

/// The pair one source line denotes: the part before the first `:` is the
/// key, the part after it — leading spaces stripped — the value. `None` for
/// a line without `:`.
pub open spec fn line_pair(line: Seq<u8>) -> Option<(Seq<u8>, Seq<u8>)> {
    let c = crate::form::scan_len(line, 58) as int;
    if c >= line.len() {
        None
    } else {
        Some((line.take(c), strip_spaces(line.skip(c + 1))))
    }
}

/// A line the source parser passes over: blank, or a `#` comment.
pub open spec fn skipped_line(line: Seq<u8>) -> bool {
    line.len() == 0 || line[0] == 35
}

/// The pairs of a whole configuration source: lines split on newlines,
/// blank and comment lines skipped, every other line read by `line_pair`.
/// `None` when any such line has no `:`.
pub open spec fn spec_parse_source(s: Seq<u8>) -> Option<Seq<(Seq<u8>, Seq<u8>)>>
    decreases s.len(),
{
    if s.len() == 0 {
        Some(Seq::empty())
    } else {
        let l = crate::form::scan_len(s, 10) as int;
        let line = if l >= s.len() {
            s
        } else {
            s.take(l)
        };
        let rest = if l >= s.len() {
            Some(Seq::<(Seq<u8>, Seq<u8>)>::empty())
        } else {
            spec_parse_source(s.skip(l + 1))
        };
        let head = if skipped_line(line) {
            Some(Seq::<(Seq<u8>, Seq<u8>)>::empty())
        } else if line_pair(line) is Some {
            Some(seq![line_pair(line).unwrap()])
        } else {
            None
        };
        if head is Some && rest is Some {
            Some(head.unwrap() + rest.unwrap())
        } else {
            None
        }
    }
}

/// Strip leading spaces from a slice, exactly as `strip_spaces` reads it.
fn strip_spaces_exec(s: &[u8]) -> (r: Vec<u8>)
    ensures
        r@ == strip_spaces(s@),
{
    let mut i: usize = 0;
    proof {
        assert(s@.skip(0) =~= s@);
    }
    while i < s.len() && s[i] == 32
        invariant
            0 <= i <= s@.len(),
            strip_spaces(s@) == strip_spaces(s@.skip(i as int)),
            forall|t: int| 0 <= t < i ==> s@[t] == 32,
        decreases s@.len() - i,
    {
        proof {
            assert(s@.skip(i as int)[0] == s@[i as int]);
            assert(s@.skip(i as int).skip(1) =~= s@.skip(i + 1));
        }
        i = i + 1;
    }
    let tail = vstd::slice::slice_subrange(s, i, s.len());
    let mut out: Vec<u8> = Vec::new();
    append_bytes(&mut out, tail);
    proof {
        if i < s@.len() {
            assert(s@.skip(i as int)[0] == s@[i as int]);
        }
        assert(strip_spaces(s@.skip(i as int)) == s@.skip(i as int));
        assert(Seq::<u8>::empty() + tail@ =~= s@.skip(i as int));
    }
    out
}

/// Parse a configuration source, exactly as `spec_parse_source` reads it.
pub fn parse_config_source(s: &[u8]) -> (r: Option<Vec<ConfigPair>>)
    ensures
        match r {
            Some(v) => spec_parse_source(s@) == Some(cpairs_view(v@)),
            None => spec_parse_source(s@) is None,
        },
{
    let mut acc: Vec<ConfigPair> = Vec::new();
    let mut i: usize = 0;
    proof {
        assert(s@.skip(0) =~= s@);
        assert(cpairs_view(acc@) =~= Seq::<(Seq<u8>, Seq<u8>)>::empty());
    }
    while i < s.len()
        invariant
            0 <= i <= s@.len(),
            spec_parse_source(s@) == match spec_parse_source(s@.skip(i as int)) {
                Some(t) => Some(cpairs_view(acc@) + t),
                None => None::<Seq<(Seq<u8>, Seq<u8>)>>,
            },
        decreases s@.len() - i,
    {
        let ghost suf = s@.skip(i as int);
        let mut j: usize = i;
        while j < s.len() && s[j] != 10
            invariant
                i <= j <= s@.len(),
                forall|k: int| i <= k < j ==> s@[k] != 10,
            decreases s@.len() - j,
        {
            j = j + 1;
        }
        proof {
            assert forall|k: int| 0 <= k < j - i implies suf[k] != 10 by {
                assert(suf[k] == s@[i + k]);
            }
            if j < s@.len() {
                assert(suf[j - i] == s@[j as int]);
            }
            crate::form::lemma_scan_len_is(suf, 10, j - i);
        }
        let ghost l: int = j - i;
        let ghost line = if l >= suf.len() { suf } else { suf.take(l) };
        proof {
            assert(line =~= s@.subrange(i as int, j as int));
        }
        let skipped = j == i || s[i] == 35;
        if skipped {
            proof {
                assert(skipped_line(line));
            }
        } else {
            let mut m: usize = i;
            while m < j && s[m] != 58
                invariant
                    i <= m <= j <= s@.len(),
                    forall|k: int| i <= k < m ==> s@[k] != 58,
                decreases j - m,
            {
                m = m + 1;
            }
            proof {
                assert forall|k: int| 0 <= k < m - i implies line[k] != 58 by {
                    assert(line[k] == s@[i + k]);
                }
                if m < j {
                    assert(line[m - i] == s@[m as int]);
                }
                crate::form::lemma_scan_len_is(line, 58, m - i);
            }
            if m == j {
                proof {
                    assert(line_pair(line) is None);
                    assert(spec_parse_source(suf) is None);
                }
                return None;
            }
            let key_slice = vstd::slice::slice_subrange(s, i, m);
            let raw_value = vstd::slice::slice_subrange(s, m + 1, j);
            let value = strip_spaces_exec(raw_value);
            proof {
                assert(key_slice@ =~= line.take(m - i));
                assert(raw_value@ =~= line.skip(m - i + 1));
                assert(line_pair(line) == Some((key_slice@, value@)));
            }
            let ghost pr = (key_slice@, value@);
            let mut key: Vec<u8> = Vec::new();
            append_bytes(&mut key, key_slice);
            proof {
                assert(key@ =~= key_slice@);
            }
            acc.push(ConfigPair { key, value });
            proof {
                let anew = cpairs_view(acc@);
                let aold = cpairs_view(acc@.drop_last());
                assert(anew =~= aold.push(pr));
            }
        }
        proof {
            let head: Seq<(Seq<u8>, Seq<u8>)> = if skipped_line(line) {
                Seq::empty()
            } else {
                seq![line_pair(line).unwrap()]
            };
            if l >= suf.len() {
                assert(j == s@.len());
                assert(spec_parse_source(suf) == Some(head + Seq::<(Seq<u8>, Seq<u8>)>::empty()));
                assert(s@.skip(s@.len() as int) =~= Seq::<u8>::empty());
            } else {
                assert(suf.skip(l + 1) =~= s@.skip(j + 1));
            }
        }
        if j < s.len() {
            let ghost aprev = cpairs_view(acc@);
            proof {
                let head: Seq<(Seq<u8>, Seq<u8>)> = if skipped_line(line) {
                    Seq::empty()
                } else {
                    seq![line_pair(line).unwrap()]
                };
                if spec_parse_source(s@.skip(j + 1)) is Some {
                    let t = spec_parse_source(s@.skip(j + 1)).unwrap();
                    assert(spec_parse_source(suf) == Some(head + t));
                    if skipped_line(line) {
                        assert(head + t =~= t);
                    } else {
                        assert(cpairs_view(acc@) =~= cpairs_view(acc@.drop_last()) + head);
                        assert(cpairs_view(acc@.drop_last()) + (head + t) =~= cpairs_view(acc@)
                            + t);
                    }
                }
            }
            i = j + 1;
        } else {
            proof {
                let head: Seq<(Seq<u8>, Seq<u8>)> = if skipped_line(line) {
                    Seq::empty()
                } else {
                    seq![line_pair(line).unwrap()]
                };
                assert(spec_parse_source(suf) == Some(head + Seq::<(Seq<u8>, Seq<u8>)>::empty()));
                assert(head + Seq::<(Seq<u8>, Seq<u8>)>::empty() =~= head);
                if skipped_line(line) {
                    assert(cpairs_view(acc@) + head =~= cpairs_view(acc@));
                } else {
                    assert(cpairs_view(acc@) =~= cpairs_view(acc@.drop_last()) + head);
                }
            }
            i = j;
            proof {
                assert(s@.skip(i as int) =~= Seq::<u8>::empty());
            }
        }
    }
    proof {
        assert(s@.skip(i as int) =~= Seq::<u8>::empty());
        assert(cpairs_view(acc@) + Seq::<(Seq<u8>, Seq<u8>)>::empty() =~= cpairs_view(acc@));
    }
    Some(acc)
}

/// Where the HTTP listener binds.
pub struct ApplicationSettings {
    pub host: Vec<u8>,
    pub port: u16,
}

/// How the relational store is reached.
pub struct DatabaseSettings {
    pub username: Vec<u8>,
    pub password: SecretValue,
    pub host: Vec<u8>,
    pub port: u16,
    pub database_name: Vec<u8>,
    pub require_ssl: bool,
}

/// The immutable settings snapshot a process starts from.
pub struct Settings {
    pub application: ApplicationSettings,
    pub database: DatabaseSettings,
}

/// The `host:port` address the listener binds.
pub open spec fn spec_listen_address(app: ApplicationSettings) -> Seq<u8> {
    app.host@ + seq![58u8] + dec_digits_of(app.port as nat)
}

impl ApplicationSettings {
    /// Assemble the address the listener binds.
    pub fn listen_address(&self) -> (r: Vec<u8>)
        ensures
            r@ == spec_listen_address(*self),
    {
        let mut v: Vec<u8> = Vec::new();
        append_bytes(&mut v, self.host.as_slice());
        v.push(58);
        let port = format_u16(self.port);
        append_bytes(&mut v, port.as_slice());
        proof {
            assert(v@ =~= spec_listen_address(*self));
        }
        v
    }
}

/// The SSL-mode token the flag selects.
pub open spec fn ssl_token(require_ssl: bool) -> Seq<u8> {
    if require_ssl {
        ssl_require_token()
    } else {
        ssl_prefer_token()
    }
}

/// The connection string of the named database. The credential appears here
/// and only here: assembling it is the explicit opt-in.
pub open spec fn spec_connection_string(db: DatabaseSettings) -> Seq<u8> {
    pg_scheme() + db.username@ + seq![58u8] + db.password@ + seq![64u8] + db.host@ + seq![58u8]
        + dec_digits_of(db.port as nat) + seq![47u8] + db.database_name@ + ssl_token(
        db.require_ssl,
    )
}

/// The maintenance connection string: the same endpoint with no database
/// name, for `CREATE DATABASE` before the named one exists.
pub open spec fn spec_maintenance_connection_string(db: DatabaseSettings) -> Seq<u8> {
    pg_scheme() + db.username@ + seq![58u8] + db.password@ + seq![64u8] + db.host@ + seq![58u8]
        + dec_digits_of(db.port as nat) + ssl_token(db.require_ssl)
}

impl DatabaseSettings {
    /// Assemble the connection string of the named database.
    pub fn connection_string(&self) -> (r: Vec<u8>)
        ensures
            r@ == spec_connection_string(*self),
    {
        let mut v = pg_scheme_exec();
        append_bytes(&mut v, self.username.as_slice());
        v.push(58);
        append_bytes(&mut v, self.password.expose_secret().as_slice());
        v.push(64);
        append_bytes(&mut v, self.host.as_slice());
        v.push(58);
        let port = format_u16(self.port);
        append_bytes(&mut v, port.as_slice());
        v.push(47);
        append_bytes(&mut v, self.database_name.as_slice());
        let tok = if self.require_ssl {
            ssl_require_token_exec()
        } else {
            ssl_prefer_token_exec()
        };
        append_bytes(&mut v, tok.as_slice());
        proof {
            assert(v@ =~= spec_connection_string(*self));
        }
        v
    }

    /// Assemble the maintenance connection string.
    pub fn connection_string_without_db(&self) -> (r: Vec<u8>)
        ensures
            r@ == spec_maintenance_connection_string(*self),
    {
        let mut v = pg_scheme_exec();
        append_bytes(&mut v, self.username.as_slice());
        v.push(58);
        append_bytes(&mut v, self.password.expose_secret().as_slice());
        v.push(64);
        append_bytes(&mut v, self.host.as_slice());
        v.push(58);
        let port = format_u16(self.port);
        append_bytes(&mut v, port.as_slice());
        let tok = if self.require_ssl {
            ssl_require_token_exec()
        } else {
            ssl_prefer_token_exec()
        };
        append_bytes(&mut v, tok.as_slice());
        proof {
            assert(v@ =~= spec_maintenance_connection_string(*self));
        }
        v
    }
}

/// Why settings could not be built: the key is carried along.
#[derive(Debug, Clone, PartialEq, Eq)]
pub enum ConfigError {
    MissingField(Vec<u8>),
    InvalidInteger(Vec<u8>),
    InvalidBoolean(Vec<u8>),
}

/// Every required key is present after merging and every typed field
/// coerces.
pub open spec fn sources_wellformed(
    b: Seq<(Seq<u8>, Seq<u8>)>,
    o: Seq<(Seq<u8>, Seq<u8>)>,
    e: Seq<(Seq<u8>, Seq<u8>)>,
) -> bool {
    &&& spec_merged(b, o, e, app_host_key()) is Some
    &&& spec_merged(b, o, e, app_port_key()) is Some
    &&& spec_parse_u16(spec_merged(b, o, e, app_port_key()).unwrap()) is Some
    &&& spec_merged(b, o, e, db_host_key()) is Some
    &&& spec_merged(b, o, e, db_port_key()) is Some
    &&& spec_parse_u16(spec_merged(b, o, e, db_port_key()).unwrap()) is Some
    &&& spec_merged(b, o, e, db_user_key()) is Some
    &&& spec_merged(b, o, e, db_password_key()) is Some
    &&& spec_merged(b, o, e, db_name_key()) is Some
    &&& spec_merged(b, o, e, db_ssl_key()) is Some
    &&& spec_parse_bool(spec_merged(b, o, e, db_ssl_key()).unwrap()) is Some
}

/// Each settings field holds exactly the merged, coerced value of its key.
pub open spec fn settings_match(
    b: Seq<(Seq<u8>, Seq<u8>)>,
    o: Seq<(Seq<u8>, Seq<u8>)>,
    e: Seq<(Seq<u8>, Seq<u8>)>,
    s: Settings,
) -> bool {
    &&& spec_merged(b, o, e, app_host_key()) == Some(s.application.host@)
    &&& spec_merged(b, o, e, app_port_key()) is Some
    &&& spec_parse_u16(spec_merged(b, o, e, app_port_key()).unwrap()) == Some(s.application.port)
    &&& spec_merged(b, o, e, db_host_key()) == Some(s.database.host@)
    &&& spec_merged(b, o, e, db_port_key()) is Some
    &&& spec_parse_u16(spec_merged(b, o, e, db_port_key()).unwrap()) == Some(s.database.port)
    &&& spec_merged(b, o, e, db_user_key()) == Some(s.database.username@)
    &&& spec_merged(b, o, e, db_password_key()) == Some(s.database.password@)
    &&& spec_merged(b, o, e, db_name_key()) == Some(s.database.database_name@)
    &&& spec_merged(b, o, e, db_ssl_key()) is Some
    &&& spec_parse_bool(spec_merged(b, o, e, db_ssl_key()).unwrap()) == Some(
        s.database.require_ssl,
    )
}

/// The reported error names a key that is in fact missing or malformed.
pub open spec fn error_matches(
    b: Seq<(Seq<u8>, Seq<u8>)>,
    o: Seq<(Seq<u8>, Seq<u8>)>,
    e: Seq<(Seq<u8>, Seq<u8>)>,
    err: ConfigError,
) -> bool {
    match err {
        ConfigError::MissingField(k) => spec_merged(b, o, e, k@) is None && (k@ == app_host_key()
            || k@ == app_port_key() || k@ == db_host_key() || k@ == db_port_key() || k@
            == db_user_key() || k@ == db_password_key() || k@ == db_name_key() || k@
            == db_ssl_key()),
        ConfigError::InvalidInteger(k) => (k@ == app_port_key() || k@ == db_port_key())
            && spec_merged(b, o, e, k@) is Some && spec_parse_u16(
            spec_merged(b, o, e, k@).unwrap(),
        ) is None,
        ConfigError::InvalidBoolean(k) => k@ == db_ssl_key() && spec_merged(b, o, e, k@) is Some
            && spec_parse_bool(spec_merged(b, o, e, k@).unwrap()) is None,
    }
}

/// Merge the three sources and coerce the typed fields into a settings
/// snapshot. Succeeds exactly when every required key is present and every
/// typed value coerces; the environment pairs take part under their
/// rewritten keys.
pub fn build_settings(
    base: &Vec<ConfigPair>,
    overlay: &Vec<ConfigPair>,
    env_raw: &Vec<ConfigPair>,
) -> (r: Result<Settings, ConfigError>)
    ensures
        r is Ok <==> sources_wellformed(
            cpairs_view(base@),
            cpairs_view(overlay@),
            spec_normalize_env_pairs(cpairs_view(env_raw@)),
        ),
        match r {
            Ok(s) => settings_match(
                cpairs_view(base@),
                cpairs_view(overlay@),
                spec_normalize_env_pairs(cpairs_view(env_raw@)),
                s,
            ),
            Err(err) => error_matches(
                cpairs_view(base@),
                cpairs_view(overlay@),
                spec_normalize_env_pairs(cpairs_view(env_raw@)),
                err,
            ),
        },
{
    let env = normalize_env_pairs(env_raw);
    let app_host = match merged_lookup(base, overlay, &env, app_host_key_exec().as_slice()) {
        Some(v) => v,
        None => {
            return Err(ConfigError::MissingField(app_host_key_exec()));
        },
    };
    let app_port_raw = match merged_lookup(base, overlay, &env, app_port_key_exec().as_slice()) {
        Some(v) => v,
        None => {
            return Err(ConfigError::MissingField(app_port_key_exec()));
        },
    };
    let app_port = match parse_u16(app_port_raw.as_slice()) {
        Some(p) => p,
        None => {
            return Err(ConfigError::InvalidInteger(app_port_key_exec()));
        },
    };
    let db_host = match merged_lookup(base, overlay, &env, db_host_key_exec().as_slice()) {
        Some(v) => v,
        None => {
            return Err(ConfigError::MissingField(db_host_key_exec()));
        },
    };
    let db_port_raw = match merged_lookup(base, overlay, &env, db_port_key_exec().as_slice()) {
        Some(v) => v,
        None => {
            return Err(ConfigError::MissingField(db_port_key_exec()));
        },
    };
    let db_port = match parse_u16(db_port_raw.as_slice()) {
        Some(p) => p,
        None => {
            return Err(ConfigError::InvalidInteger(db_port_key_exec()));
        },
    };
    let db_user = match merged_lookup(base, overlay, &env, db_user_key_exec().as_slice()) {
        Some(v) => v,
        None => {
            return Err(ConfigError::MissingField(db_user_key_exec()));
        },
    };
    let db_password = match merged_lookup(base, overlay, &env, db_password_key_exec().as_slice()) {
        Some(v) => v,
        None => {
            return Err(ConfigError::MissingField(db_password_key_exec()));
        },
    };
    let db_name = match merged_lookup(base, overlay, &env, db_name_key_exec().as_slice()) {
        Some(v) => v,
        None => {
            return Err(ConfigError::MissingField(db_name_key_exec()));
        },
    };
    let db_ssl_raw = match merged_lookup(base, overlay, &env, db_ssl_key_exec().as_slice()) {
        Some(v) => v,
        None => {
            return Err(ConfigError::MissingField(db_ssl_key_exec()));
        },
    };
    let require_ssl = match parse_bool(db_ssl_raw.as_slice()) {
        Some(f) => f,
        None => {
            return Err(ConfigError::InvalidBoolean(db_ssl_key_exec()));
        },
    };
    Ok(
        Settings {
            application: ApplicationSettings { host: app_host, port: app_port },
            database: DatabaseSettings {
                username: db_user,
                password: SecretValue::new(db_password),
                host: db_host,
                port: db_port,
                database_name: db_name,
                require_ssl,
            },
        },
    )
}

} // verus!
