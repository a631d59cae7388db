//! The URL-encoded form grammar of the subscription endpoint.
//!
//! A submission body is a sequence of `&`-separated segments; each non-empty
//! segment is a `key=value` pair (a segment without `=` is a key with an empty
//! value); keys and values are percent-decoded, with `+` standing for a space.
//! A submission is accepted exactly when every segment decodes, no key among
//! `name` and `email` occurs twice, and both occur.

use vstd::prelude::*;

verus! {

pub const AMP: u8 = 38;
pub const EQUALS: u8 = 61;
pub const PERCENT: u8 = 37;
pub const PLUS: u8 = 43;
pub const SPACE: u8 = 32;

/// ASCII hexadecimal digit, either case.
pub open spec fn is_hex_digit(b: u8) -> bool {
    (48 <= b && b <= 57) || (65 <= b && b <= 70) || (97 <= b && b <= 102)
}

/// Numeric value of a hexadecimal digit.
pub open spec fn hex_val(b: u8) -> u8 {
    if 48 <= b && b <= 57 {
        (b - 48) as u8
    } else if 65 <= b && b <= 70 {
        (b - 55) as u8
    } else {
        (b - 87) as u8
    }
}

/// Percent-decoding of one key or value: `%XY` is the byte with hexadecimal
/// value `XY`, `+` is a space, anything else stands for itself. `None` on a
/// `%` not followed by two hexadecimal digits.
pub open spec fn spec_decode(s: Seq<u8>) -> Option<Seq<u8>>
    decreases s.len(),
{
    if s.len() == 0 {
        Some(Seq::empty())
    } else if s[0] == PERCENT {
        if s.len() >= 3 && is_hex_digit(s[1]) && is_hex_digit(s[2]) {
            match spec_decode(s.skip(3)) {
                Some(t) => Some(seq![(hex_val(s[1]) * 16 + hex_val(s[2])) as u8] + t),
                None => None,
            }
        } else {
            None
        }
    } else if s[0] == PLUS {
        match spec_decode(s.skip(1)) {
            Some(t) => Some(seq![SPACE] + t),
            None => None,
        }
    } else {
        match spec_decode(s.skip(1)) {
            Some(t) => Some(seq![s[0]] + t),
            None => None,
        }
    }
}

/// Distance from the start of `s` to the first occurrence of `b` (or to the
/// end, if `b` does not occur).
pub open spec fn scan_len(s: Seq<u8>, b: u8) -> nat
    decreases s.len(),
{
    if s.len() == 0 {
        0
    } else if s[0] == b {
        0
    } else {
        1 + scan_len(s.skip(1), b)
    }
}

/// The scan length is determined by what a left-to-right scan sees.
pub proof fn lemma_scan_len_is(s: Seq<u8>, b: u8, m: int)
    requires
        0 <= m <= s.len(),
        forall|k: int| 0 <= k < m ==> s[k] != b,
        m < s.len() ==> s[m] == b,
    ensures
        scan_len(s, b) == m,
    decreases s.len(),
{
    if s.len() == 0 {
    } else if s[0] == b {
    } else {
        assert forall|k: int| 0 <= k < m - 1 implies s.skip(1)[k] != b by {
            assert(s.skip(1)[k] == s[k + 1]);
        }
        if m < s.len() {
            assert(s.skip(1)[m - 1] == s[m]);
        }
        lemma_scan_len_is(s.skip(1), b, m - 1);
    }
}

/// One segment as a pair: the part before the first `=` is the key, the part
/// after it the value (a segment without `=` has an empty value); both are
/// percent-decoded. `None` when either fails to decode.
pub open spec fn spec_pair(seg: Seq<u8>) -> Option<(Seq<u8>, Seq<u8>)> {
    let e = scan_len(seg, EQUALS) as int;
    let rawk = if e >= seg.len() {
        seg
    } else {
        seg.take(e)
    };
    let rawv = if e >= seg.len() {
        Seq::<u8>::empty()
    } else {
        seg.skip(e + 1)
    };
    if spec_decode(rawk) is Some && spec_decode(rawv) is Some {
        Some((spec_decode(rawk).unwrap(), spec_decode(rawv).unwrap()))
    } else {
        None
    }
}

/// The decoded pairs of a whole body: segments split on `&`, empty segments
/// skipped, each remaining segment decoded by `spec_pair`. `None` when any
/// segment fails to decode.
pub open spec fn spec_body_pairs(s: Seq<u8>) -> Option<Seq<(Seq<u8>, Seq<u8>)>>
    decreases s.len(),
{
    if s.len() == 0 {
        Some(Seq::empty())
    } else {
        let l = scan_len(s, AMP) as int;
        let seg = if l >= s.len() {
            s
        } else {
            s.take(l)
        };
        let rest = if l >= s.len() {
            Some(Seq::<(Seq<u8>, Seq<u8>)>::empty())
        } else {
            spec_body_pairs(s.skip(l + 1))
        };
        let head = if seg.len() == 0 {
            Some(Seq::<(Seq<u8>, Seq<u8>)>::empty())
        } else if spec_pair(seg) is Some {
            Some(seq![spec_pair(seg).unwrap()])
        } else {
            None
        };
        if head is Some && rest is Some {
            Some(head.unwrap() + rest.unwrap())
        } else {
            None
        }
    }
}

/// How many pairs carry the given key.
pub open spec fn key_count(pairs: Seq<(Seq<u8>, Seq<u8>)>, key: Seq<u8>) -> nat
    decreases pairs.len(),
{
    if pairs.len() == 0 {
        0
    } else {
        (if pairs[0].0 == key {
            1nat
        } else {
            0nat
        }) + key_count(pairs.skip(1), key)
    }
}

/// The value of the first pair carrying the given key.
pub open spec fn key_value(pairs: Seq<(Seq<u8>, Seq<u8>)>, key: Seq<u8>) -> Seq<u8>
    decreases pairs.len(),
{
    if pairs.len() == 0 {
        Seq::empty()
    } else if pairs[0].0 == key {
        pairs[0].1
    } else {
        key_value(pairs.skip(1), key)
    }
}

/// The bytes of `name`.
pub open spec fn name_key() -> Seq<u8> {
    seq![110u8, 97u8, 109u8, 101u8]
}

/// The bytes of `email`.
pub open spec fn email_key() -> Seq<u8> {
    seq![101u8, 109u8, 97u8, 105u8, 108u8]
}

/// Why a submission was rejected.
#[derive(Clone, Copy, Debug, PartialEq, Eq, Structural)]
pub enum FormError {
    /// A segment fails percent-decoding.
    Malformed,
    /// `name` or `email` occurs more than once.
    DuplicateField,
    MissingName,
    MissingEmail,
    MissingBoth,
}

/// The meaning of a submission body: the decoded `name` and `email` values,
/// or the error that rejects it.
pub open spec fn spec_parse_form(body: Seq<u8>) -> Result<(Seq<u8>, Seq<u8>), FormError> {
    if spec_body_pairs(body) is None {
        Err(FormError::Malformed)
    } else {
        let ps = spec_body_pairs(body).unwrap();
        let nc = key_count(ps, name_key());
        let ec = key_count(ps, email_key());
        if nc > 1 || ec > 1 {
            Err(FormError::DuplicateField)
        } else if nc == 0 && ec == 0 {
            Err(FormError::MissingBoth)
        } else if nc == 0 {
            Err(FormError::MissingName)
        } else if ec == 0 {
            Err(FormError::MissingEmail)
        } else {
            Ok((key_value(ps, name_key()), key_value(ps, email_key())))
        }
    }
}

/// A validated submission: both fields present, decoded.
#[derive(Debug, Clone, PartialEq, Eq)]
pub struct FormData {
    pub name: Vec<u8>,
    pub email: Vec<u8>,
}

fn is_hex_digit_exec(b: u8) -> (r: bool)
    ensures
        r == is_hex_digit(b),
{
    (48 <= b && b <= 57) || (65 <= b && b <= 70) || (97 <= b && b <= 102)
}

fn hex_val_exec(b: u8) -> (r: u8)
    requires
        is_hex_digit(b),
    ensures
        r == hex_val(b),
{
    if 48 <= b && b <= 57 {
        b - 48
    } else if 65 <= b && b <= 70 {
        b - 55
    } else {
        b - 87
    }
}

/// Percent-decode one key or value, exactly as `spec_decode` reads it.
pub fn percent_decode(s: &[u8]) -> (r: Option<Vec<u8>>)
    ensures
        match r {
            Some(v) => spec_decode(s@) == Some(v@),
            None => spec_decode(s@) is None,
        },
{
    let mut acc: Vec<u8> = Vec::new();
    let mut i: usize = 0;
    proof {
        assert(s@.skip(0) =~= s@);
    }
    while i < s.len()
        invariant
            0 <= i <= s@.len(),
            spec_decode(s@) == match spec_decode(s@.skip(i as int)) {
                Some(t) => Some(acc@ + t),
                None => None::<Seq<u8>>,
            },
        decreases s@.len() - i,
    {
        let ghost suf = s@.skip(i as int);
        assert(suf[0] == s@[i as int]);
        let b = s[i];
        if b == PERCENT {
            if s.len() - i >= 3 && is_hex_digit_exec(s[i + 1]) && is_hex_digit_exec(s[i + 2]) {
                proof {
                    assert(suf.len() >= 3);
                    assert(suf[1] == s@[i + 1]);
                    assert(suf[2] == s@[i + 2]);
                    assert(suf.skip(3) =~= s@.skip(i + 3));
                }
                let d = hex_val_exec(s[i + 1]) * 16 + hex_val_exec(s[i + 2]);
                acc.push(d);
                proof {
                    if spec_decode(s@.skip(i + 3)) is Some {
                        let t = spec_decode(s@.skip(i + 3)).unwrap();
                        assert(spec_decode(suf) == Some(seq![d] + t));
                        assert(acc@ + t =~= (acc@.drop_last() + (seq![d] + t)));
                    }
                }
                i = i + 3;
            } else {
                proof {
                    assert(!(suf.len() >= 3 && is_hex_digit(suf[1]) && is_hex_digit(suf[2])));
                    assert(spec_decode(suf) is None);
                }
                return None;
            }
        } else {
            let out: u8 = if b == PLUS {
                SPACE
            } else {
                b
            };
            acc.push(out);
            proof {
                assert(suf.skip(1) =~= s@.skip(i + 1));
                if spec_decode(s@.skip(i + 1)) is Some {
                    let t = spec_decode(s@.skip(i + 1)).unwrap();
                    assert(spec_decode(suf) == Some(seq![out] + t));
                    assert(acc@ + t =~= (acc@.drop_last() + (seq![out] + t)));
                }
            }
            i = i + 1;
        }
    }
    proof {
        assert(s@.skip(i as int) =~= Seq::<u8>::empty());
        assert(acc@ + Seq::<u8>::empty() =~= acc@);
    }
    Some(acc)
}

struct Pair {
    key: Vec<u8>,
    value: Vec<u8>,
}

spec fn pview(p: Pair) -> (Seq<u8>, Seq<u8>) {
    (p.key@, p.value@)
}

spec fn pairs_view(v: Seq<Pair>) -> Seq<(Seq<u8>, Seq<u8>)> {
    v.map_values(|p: Pair| pview(p))
}

/// Split the body on `&`, decode each non-empty segment as a pair.
fn collect_pairs(body: &[u8]) -> (r: Option<Vec<Pair>>)
    ensures
        match r {
            Some(v) => spec_body_pairs(body@) == Some(pairs_view(v@)),
            None => spec_body_pairs(body@) is None,
        },
{
    let mut acc: Vec<Pair> = Vec::new();
    let mut i: usize = 0;
    proof {
        assert(body@.skip(0) =~= body@);
        assert(pairs_view(acc@) =~= Seq::<(Seq<u8>, Seq<u8>)>::empty());
    }
    while i < body.len()
        invariant
            0 <= i <= body@.len(),
            spec_body_pairs(body@) == match spec_body_pairs(body@.skip(i as int)) {
                Some(t) => Some(pairs_view(acc@) + t),
                None => None::<Seq<(Seq<u8>, Seq<u8>)>>,
            },
        decreases body@.len() - i,
    {
        let ghost suf = body@.skip(i as int);
        // scan to the end of the segment
        let mut j: usize = i;
        while j < body.len() && body[j] != AMP
            invariant
                i <= j <= body@.len(),
                forall|k: int| i <= k < j ==> body@[k] != AMP,
            decreases body@.len() - j,
        {
            j = j + 1;
        }
        proof {
            assert forall|k: int| 0 <= k < j - i implies suf[k] != AMP by {
                assert(suf[k] == body@[i + k]);
            }
            if j < body@.len() {
                assert(suf[j - i] == body@[j as int]);
            }
            lemma_scan_len_is(suf, AMP, j - i);
            assert(scan_len(suf, AMP) == j - i);
        }
        let ghost l: int = j - i;
        let ghost seg = if l >= suf.len() { suf } else { suf.take(l) };
        proof {
            assert(seg =~= body@.subrange(i as int, j as int));
        }
        if j == i {
            // empty segment: skipped
            proof {
                assert(l < suf.len());
                assert(suf.skip(l + 1) =~= body@.skip(j + 1));
                if spec_body_pairs(body@.skip(j + 1)) is Some {
                    let t = spec_body_pairs(body@.skip(j + 1)).unwrap();
                    assert(spec_body_pairs(suf) == Some(Seq::<(Seq<u8>, Seq<u8>)>::empty() + t));
                    assert(Seq::<(Seq<u8>, Seq<u8>)>::empty() + t =~= t);
                }
            }
            i = j + 1;
        } else {
            // scan to the first '=' inside the segment
            let mut m: usize = i;
            while m < j && body[m] != EQUALS
                invariant
                    i <= m <= j <= body@.len(),
                    forall|k: int| i <= k < m ==> body@[k] != EQUALS,
                decreases j - m,
            {
                m = m + 1;
            }
            proof {
                assert forall|k: int| 0 <= k < m - i implies seg[k] != EQUALS by {
                    assert(seg[k] == body@[i + k]);
                }
                if m < j {
                    assert(seg[m - i] == body@[m as int]);
                }
                lemma_scan_len_is(seg, EQUALS, m - i);
                assert(scan_len(seg, EQUALS) == m - i);
            }
            let ghost e: int = m - i;
            let ghost rawk = if e >= seg.len() { seg } else { seg.take(e) };
            let ghost rawv = if e >= seg.len() { Seq::<u8>::empty() } else { seg.skip(e + 1) };
            let vstart: usize = if m < j {
                m + 1
            } else {
                j
            };
            proof {
                assert(rawk =~= body@.subrange(i as int, m as int));
                assert(rawv =~= body@.subrange(vstart as int, j as int));
            }
            let kslice = vstd::slice::slice_subrange(body, i, m);
            let vslice = vstd::slice::slice_subrange(body, vstart, j);
            let kdec = percent_decode(kslice);
            let vdec = percent_decode(vslice);
            match (kdec, vdec) {
                (Some(kv), Some(vv)) => {
                    proof {
                        assert(spec_pair(seg) == Some((kv@, vv@)));
                    }
                    let ghost pr = (kv@, vv@);
                    acc.push(Pair { key: kv, value: vv });
                    proof {
                        let pvnew = pairs_view(acc@);
                        let pvold = pairs_view(acc@.drop_last());
                        assert(pvnew =~= pvold.push(pr));
                        if l >= suf.len() {
                            assert(j == body@.len());
                            assert(spec_body_pairs(suf) == Some(seq![pr] + Seq::<(
                                Seq<u8>,
                                Seq<u8>,
                            )>::empty()));
                            assert(seq![pr] + Seq::<(Seq<u8>, Seq<u8>)>::empty() =~= seq![pr]);
                            assert(body@.skip(body@.len() as int) =~= Seq::<u8>::empty());
                            assert(spec_body_pairs(body@.skip(body@.len() as int)) == Some(Seq::<(
                                Seq<u8>,
                                Seq<u8>,
                            )>::empty()));
                            assert(pvold + seq![pr] =~= pvnew + Seq::<(Seq<u8>, Seq<u8>)>::empty());
                        } else {
                            assert(suf.skip(l + 1) =~= body@.skip(j + 1));
                            if spec_body_pairs(body@.skip(j + 1)) is Some {
                                let t = spec_body_pairs(body@.skip(j + 1)).unwrap();
                                assert(spec_body_pairs(suf) == Some(seq![pr] + t));
                                assert(pvold + (seq![pr] + t) =~= pvnew + t);
                            }
                        }
                    }
                    if j < body.len() {
                        i = j + 1;
                    } else {
                        i = j;
                        proof {
                            assert(body@.skip(i as int) =~= Seq::<u8>::empty());
                        }
                    }
                },
                _ => {
                    proof {
                        assert(spec_pair(seg) is None);
                        assert(spec_body_pairs(suf) is None);
                    }
                    return None;
                },
            }
        }
    }
    proof {
        assert(body@.skip(i as int) =~= Seq::<u8>::empty());
        assert(pairs_view(acc@) + Seq::<(Seq<u8>, Seq<u8>)>::empty() =~= pairs_view(acc@));
    }
    Some(acc)
}

proof fn lemma_key_count_snoc(ps: Seq<(Seq<u8>, Seq<u8>)>, x: (Seq<u8>, Seq<u8>), k: Seq<u8>)
    ensures
        key_count(ps.push(x), k) == key_count(ps, k) + (if x.0 == k {
            1nat
        } else {
            0nat
        }),
    decreases ps.len(),
{
    if ps.len() == 0 {
        assert(ps.push(x)[0] == x);
        assert(ps.push(x).skip(1) =~= Seq::<(Seq<u8>, Seq<u8>)>::empty());
        assert(key_count(Seq::<(Seq<u8>, Seq<u8>)>::empty(), k) == 0);
        assert(key_count(ps, k) == 0);
    } else {
        assert(ps.push(x)[0] == ps[0]);
        assert(ps.push(x).skip(1) =~= ps.skip(1).push(x));
        lemma_key_count_snoc(ps.skip(1), x, k);
    }
}

proof fn lemma_key_value_snoc(ps: Seq<(Seq<u8>, Seq<u8>)>, x: (Seq<u8>, Seq<u8>), k: Seq<u8>)
    ensures
        key_count(ps, k) > 0 ==> key_value(ps.push(x), k) == key_value(ps, k),
        key_count(ps, k) == 0 && x.0 == k ==> key_value(ps.push(x), k) == x.1,
    decreases ps.len(),
{
    if ps.len() == 0 {
        assert(ps.push(x)[0] == x);
    } else {
        assert(ps.push(x)[0] == ps[0]);
        assert(ps.push(x).skip(1) =~= ps.skip(1).push(x));
        lemma_key_value_snoc(ps.skip(1), x, k);
    }
}

fn is_key(k: &Vec<u8>, which: &[u8]) -> (r: bool)
    ensures
        r == (k@ == which@),
{
    crate::bytes_eq(k.as_slice(), which)
}

/// The four bytes of `name`, as a slice for comparisons.
fn name_key_exec() -> (r: Vec<u8>)
    ensures
        r@ == name_key(),
{
    let mut v: Vec<u8> = Vec::new();
    v.push(110);
    v.push(97);
    v.push(109);
    v.push(101);
    proof {
        assert(v@ =~= name_key());
    }
    v
}

/// The five bytes of `email`, as a slice for comparisons.
fn email_key_exec() -> (r: Vec<u8>)
    ensures
        r@ == email_key(),
{
    let mut v: Vec<u8> = Vec::new();
    v.push(101);
    v.push(109);
    v.push(97);
    v.push(105);
    v.push(108);
    proof {
        assert(v@ =~= email_key());
    }
    v
}

/// Parse a submission body, exactly as `spec_parse_form` reads it.
pub fn parse_form(body: &[u8]) -> (r: Result<FormData, FormError>)
    ensures
        match r {
            Ok(f) => spec_parse_form(body@) == Ok::<_, FormError>((f.name@, f.email@)),
            Err(e) => spec_parse_form(body@) == Err::<(Seq<u8>, Seq<u8>), _>(e),
        },
{
    let pairs = match collect_pairs(body) {
        Some(p) => p,
        None => {
            return Err(FormError::Malformed);
        },
    };
    let nkey = name_key_exec();
    let ekey = email_key_exec();
    let ghost pv = pairs_view(pairs@);
    let mut nc: usize = 0;
    let mut ec: usize = 0;
    let mut nval: Vec<u8> = Vec::new();
    let mut eval_: Vec<u8> = Vec::new();
    let mut i: usize = 0;
    proof {
        assert(pv.take(0) =~= Seq::<(Seq<u8>, Seq<u8>)>::empty());
    }
    while i < pairs.len()
        invariant
            0 <= i <= pairs@.len(),
            pv == pairs_view(pairs@),
            nkey@ == name_key(),
            ekey@ == email_key(),
            nc == key_count(pv.take(i as int), name_key()),
            ec == key_count(pv.take(i as int), email_key()),
            nc > 0 ==> nval@ == key_value(pv.take(i as int), name_key()),
            ec > 0 ==> eval_@ == key_value(pv.take(i as int), email_key()),
            nc <= i,
            ec <= i,
        decreases pairs@.len() - i,
    {
        let ghost done = pv.take(i as int);
        let ghost x = pv[i as int];
        proof {
            assert(pv.take(i + 1) =~= done.push(x));
            lemma_key_count_snoc(done, x, name_key());
            lemma_key_count_snoc(done, x, email_key());
            lemma_key_value_snoc(done, x, name_key());
            lemma_key_value_snoc(done, x, email_key());
        }
        let p = &pairs[i];
        proof {
            assert(x == pview(pairs@[i as int]));
        }
        if is_key(&p.key, nkey.as_slice()) {
            if nc == 0 {
                nval = p.value.clone();
            }
            nc = nc + 1;
        }
        if is_key(&p.key, ekey.as_slice()) {
            if ec == 0 {
                eval_ = p.value.clone();
            }
            ec = ec + 1;
        }
        i = i + 1;
    }
    proof {
        assert(pv.take(pairs@.len() as int) =~= pv);
    }
    if nc > 1 || ec > 1 {
        Err(FormError::DuplicateField)
    } else if nc == 0 && ec == 0 {
        Err(FormError::MissingBoth)
    } else if nc == 0 {
        Err(FormError::MissingName)
    } else if ec == 0 {
        Err(FormError::MissingEmail)
    } else {
        Ok(FormData { name: nval, email: eval_ })
    }
}

} // verus!
