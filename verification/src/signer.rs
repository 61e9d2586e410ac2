use vstd::prelude::*;
use crate::bytes::{
    copy_bytes, ct_eq, is_cred_byte, is_name_byte, is_value_byte, lemma_sort_contains, lower_seq,
    pair_views, sort_names, sort_names_exec, to_lower, views, wf_cred_token, wf_input_name,
    wf_name, wf_value,
};
use crate::consts::{
    authorization_name, host_name, spec_authorization_name, spec_host_name, spec_x_amz_date_name,
    x_amz_date_name,
};
use crate::crypto::is_ascii_seq;
use crate::engine::{auth_value_spec, compute_authorization, endpoint_host, names_of,
    split_endpoint};
use crate::errors::SigError;
use crate::timestamp::{days_in_month, render_timestamp, render_ts_spec, ts_valid, Timestamp};

verus! {

// ---------------------------------------------------------------------------
// Core data types
// ---------------------------------------------------------------------------

/// The shared secret identity: an access key id presented in the clear and
/// a secret key that never leaves the two parties.
pub struct Identity {
    pub access_key_id: Vec<u8>,
    pub secret_key: Vec<u8>,
}

/// The signing context: region, service, and the instant the signature is
/// bound to.
pub struct SigningContext {
    pub region: Vec<u8>,
    pub service: Vec<u8>,
    pub timestamp: Timestamp,
}

/// What signing produces: the Authorization value and the `X-Amz-Date` and
/// `Host` header values the request must carry.
pub struct SignedRequest {
    pub authorization: Vec<u8>,
    pub x_amz_date: Vec<u8>,
    pub host: Vec<u8>,
}

// ---------------------------------------------------------------------------
// Case-insensitive header lookup
// ---------------------------------------------------------------------------

/// The value of the first header whose lowercased name is `n`.
pub open spec fn lookup_spec(m: Seq<(Seq<u8>, Seq<u8>)>, n: Seq<u8>) -> Option<Seq<u8>>
    decreases m.len(),
{
    if m.len() == 0 {
        None
    } else if lower_seq(m[0].0) == n {
        Some(m[0].1)
    } else {
        lookup_spec(m.drop_first(), n)
    }
}

/// The found value, or empty where there is none.
pub open spec fn lookup_val(m: Seq<(Seq<u8>, Seq<u8>)>, n: Seq<u8>) -> Seq<u8> {
    match lookup_spec(m, n) {
        Some(v) => v,
        None => Seq::empty(),
    }
}

/// Executable counterpart of `lookup_spec`; the returned value is a copy.
#[verifier::loop_isolation(false)]
pub fn lookup(m: &Vec<(Vec<u8>, Vec<u8>)>, n: &Vec<u8>) -> (r: Option<Vec<u8>>)
    ensures
        match r {
            Some(v) => lookup_spec(pair_views(m@), n@) == Some(v@),
            None => lookup_spec(pair_views(m@), n@) is None,
        },
{
    let ghost mv = pair_views(m@);
    let mut i: usize = 0;
    proof {
        assert(mv.skip(0) =~= mv);
    }
    while i < m.len()
        invariant
            i <= m@.len(),
            mv == pair_views(m@),
            lookup_spec(mv, n@) == lookup_spec(mv.skip(i as int), n@),
        decreases m@.len() - i,
    {
        proof {
            assert(mv.skip(i as int)[0] == (m@[i as int].0@, m@[i as int].1@));
        }
        let low = to_lower(&m[i].0);
        if ct_eq(&low, n) {
            return Some(copy_bytes(&m[i].1));
        }
        proof {
            assert(mv.skip(i as int).drop_first() =~= mv.skip(i + 1));
        }
        i += 1;
    }
    None
}

/// The header subset for a list of names: each name with its looked-up value.
pub open spec fn subset_spec(m: Seq<(Seq<u8>, Seq<u8>)>, names: Seq<Seq<u8>>) -> Seq<
    (Seq<u8>, Seq<u8>),
> {
    Seq::new(names.len(), |i: int| (names[i], lookup_val(m, names[i])))
}

/// Builds the header subset named by `names` out of the map `m`, failing
/// exactly when some name has no header in `m`.
#[verifier::loop_isolation(false)]
pub fn build_subset(m: &Vec<(Vec<u8>, Vec<u8>)>, names: &Vec<Vec<u8>>) -> (r: Result<
    Vec<(Vec<u8>, Vec<u8>)>,
    SigError,
>)
    ensures
        match r {
            Ok(ps) => (forall|i: int|
                0 <= i < names@.len() ==> lookup_spec(pair_views(m@), #[trigger] views(names@)[i])
                    is Some) && pair_views(ps@) == subset_spec(pair_views(m@), views(names@)),
            Err(e) => e == SigError::MalformedRequest && exists|i: int|
                0 <= i < names@.len() && lookup_spec(pair_views(m@), #[trigger] views(names@)[i])
                    is None,
        },
{
    let ghost mv = pair_views(m@);
    let ghost nv = views(names@);
    let mut ps: Vec<(Vec<u8>, Vec<u8>)> = Vec::new();
    let mut i: usize = 0;
    while i < names.len()
        invariant
            i <= names@.len(),
            mv == pair_views(m@),
            nv == views(names@),
            pair_views(ps@) == subset_spec(mv, nv).take(i as int),
            forall|k: int| 0 <= k < i ==> lookup_spec(mv, #[trigger] nv[k]) is Some,
        decreases names@.len() - i,
    {
        let ghost pre = pair_views(ps@);
        match lookup(m, &names[i]) {
            Some(v) => {
                ps.push((copy_bytes(&names[i]), v));
                proof {
                    assert(pair_views(ps@) =~~= pre.push((nv[i as int], lookup_val(
                        mv,
                        nv[i as int],
                    ))));
                    assert(subset_spec(mv, nv).take(i + 1) =~~= subset_spec(mv, nv).take(
                        i as int,
                    ).push((nv[i as int], lookup_val(mv, nv[i as int]))));
                }
            },
            None => {
                proof {
                    assert(views(names@)[i as int] == names@[i as int]@);
                    assert(lookup_spec(pair_views(m@), views(names@)[i as int]) is None);
                }
                return Err(SigError::MalformedRequest);
            },
        }
        i += 1;
    }
    proof {
        assert(subset_spec(mv, nv).take(nv.len() as int) =~= subset_spec(mv, nv));
    }
    Ok(ps)
}

// ---------------------------------------------------------------------------
// Well-formedness of the inputs
// ---------------------------------------------------------------------------

/// The lowercased name of the header at position `i`.
pub open spec fn lower_name_at(extras: Seq<(Seq<u8>, Seq<u8>)>, i: int) -> Seq<u8> {
    lower_seq(extras[i].0)
}

/// The header at position `i` is acceptable on its own: a valid name, a
/// valid value, and not one of the names the engine itself supplies
/// (`host`, `x-amz-date`) or consumes (`authorization`).
pub open spec fn extra_ok(extras: Seq<(Seq<u8>, Seq<u8>)>, i: int) -> bool {
    &&& wf_input_name(extras[i].0)
    &&& wf_value(extras[i].1)
    &&& lower_name_at(extras, i) != spec_host_name()
    &&& lower_name_at(extras, i) != spec_x_amz_date_name()
    &&& lower_name_at(extras, i) != spec_authorization_name()
}

/// A well-formed set of caller-supplied headers: each acceptable on its own,
/// and no two names equal up to case.
pub open spec fn extras_wf(extras: Seq<(Seq<u8>, Seq<u8>)>) -> bool {
    &&& forall|i: int| 0 <= i < extras.len() ==> #[trigger] extra_ok(extras, i)
    &&& forall|i: int, j: int|
        0 <= i < j < extras.len() ==> #[trigger] lower_name_at(extras, i)
            != #[trigger] lower_name_at(extras, j)
}

/// Everything `MalformedRequest` covers on the signing side.
pub open spec fn sign_inputs_wf(
    method: Seq<u8>,
    endpoint: Seq<u8>,
    extras: Seq<(Seq<u8>, Seq<u8>)>,
    region: Seq<u8>,
    service: Seq<u8>,
    akid: Seq<u8>,
    secret: Seq<u8>,
) -> bool {
    &&& method.len() > 0
    &&& endpoint.len() > 0
    &&& extras_wf(extras)
    &&& wf_cred_token(akid)
    &&& wf_cred_token(region)
    &&& wf_cred_token(service)
    &&& is_ascii_seq(secret)
}

pub(crate) fn check_cred_token(v: &Vec<u8>) -> (r: bool)
    ensures
        r == wf_cred_token(v@),
{
    if v.len() == 0 {
        return false;
    }
    let mut i: usize = 0;
    while i < v.len()
        invariant
            i <= v@.len(),
            forall|j: int| 0 <= j < i ==> is_cred_byte(#[trigger] v@[j]),
        decreases v@.len() - i,
    {
        let b = v[i];
        if !(33 <= b && b <= 126) || (65 <= b && b <= 90) || b == 44 {
            assert(!is_cred_byte(v@[i as int]));
            return false;
        }
        i += 1;
    }
    true
}

pub(crate) fn check_ascii(v: &Vec<u8>) -> (r: bool)
    ensures
        r == is_ascii_seq(v@),
{
    let mut i: usize = 0;
    while i < v.len()
        invariant
            i <= v@.len(),
            forall|j: int| 0 <= j < i ==> #[trigger] v@[j] < 128,
        decreases v@.len() - i,
    {
        if v[i] >= 128 {
            assert(!(v@[i as int] < 128));
            return false;
        }
        i += 1;
    }
    true
}

fn check_lower_name(v: &Vec<u8>) -> (r: bool)
    ensures
        r == wf_name(v@),
{
    if v.len() == 0 {
        return false;
    }
    let mut i: usize = 0;
    while i < v.len()
        invariant
            i <= v@.len(),
            forall|j: int| 0 <= j < i ==> is_name_byte(#[trigger] v@[j]),
        decreases v@.len() - i,
    {
        let b = v[i];
        if !((97 <= b && b <= 122) || (48 <= b && b <= 57) || b == 45 || b == 95 || b == 46) {
            assert(!is_name_byte(v@[i as int]));
            return false;
        }
        i += 1;
    }
    true
}

fn check_value(v: &Vec<u8>) -> (r: bool)
    ensures
        r == wf_value(v@),
{
    let mut i: usize = 0;
    while i < v.len()
        invariant
            i <= v@.len(),
            forall|j: int| 0 <= j < i ==> is_value_byte(#[trigger] v@[j]),
        decreases v@.len() - i,
    {
        let b = v[i];
        if !(32 <= b && b <= 126) {
            assert(!is_value_byte(v@[i as int]));
            return false;
        }
        i += 1;
    }
    true
}

#[verifier::loop_isolation(false)]
fn check_extras(extras: &Vec<(Vec<u8>, Vec<u8>)>) -> (r: bool)
    ensures
        r == extras_wf(pair_views(extras@)),
{
    let ghost evs = pair_views(extras@);
    proof {
        assert(evs.len() == extras@.len());
    }
    let host = host_name();
    let xad = x_amz_date_name();
    let auth = authorization_name();
    let mut lows: Vec<Vec<u8>> = Vec::new();
    let mut i: usize = 0;
    while i < extras.len()
        invariant
            i <= extras@.len(),
            lows@.len() == i,
            forall|k: int| 0 <= k < i ==> #[trigger] lows@[k]@ == lower_name_at(evs, k),
            forall|k: int| 0 <= k < i ==> #[trigger] extra_ok(evs, k),
            forall|k: int, l: int|
                0 <= k < l < i ==> #[trigger] lower_name_at(evs, k) != #[trigger] lower_name_at(
                    evs,
                    l,
                ),
        decreases extras@.len() - i,
    {
        proof {
            assert(evs[i as int] == (extras@[i as int].0@, extras@[i as int].1@));
        }
        let low = to_lower(&extras[i].0);
        assert(low@ == lower_name_at(evs, i as int));
        if !check_lower_name(&low) {
            assert(!extra_ok(evs, i as int));
            return false;
        }
        if !check_value(&extras[i].1) {
            assert(!extra_ok(evs, i as int));
            return false;
        }
        if ct_eq(&low, &host) || ct_eq(&low, &xad) || ct_eq(&low, &auth) {
            assert(!extra_ok(evs, i as int));
            return false;
        }
        let mut j: usize = 0;
        while j < lows.len()
            invariant
                j <= lows@.len(),
                forall|k: int| 0 <= k < j ==> #[trigger] lower_name_at(evs, k) != low@,
            decreases lows@.len() - j,
        {
            if ct_eq(&lows[j], &low) {
                assert(lower_name_at(evs, j as int) == lower_name_at(evs, i as int));
                return false;
            }
            j += 1;
        }
        lows.push(low);
        i += 1;
    }
    true
}

// ---------------------------------------------------------------------------
// Signing
// ---------------------------------------------------------------------------

/// The canonical header map a signed request is built over: the caller's
/// headers with lowercased names, then `host` and `x-amz-date`.
pub open spec fn signing_pairs(
    extras: Seq<(Seq<u8>, Seq<u8>)>,
    hostv: Seq<u8>,
    stamp: Seq<u8>,
) -> Seq<(Seq<u8>, Seq<u8>)> {
    Seq::new(extras.len(), |i: int| (lower_seq(extras[i].0), extras[i].1)) + seq![
        (spec_host_name(), hostv),
        (spec_x_amz_date_name(), stamp),
    ]
}

/// What signing returns: the Authorization value, the `X-Amz-Date` value and
/// the `Host` value on success, and the exact error otherwise.
pub open spec fn sign_spec(
    method: Seq<u8>,
    endpoint: Seq<u8>,
    extras: Seq<(Seq<u8>, Seq<u8>)>,
    body: Seq<u8>,
    region: Seq<u8>,
    service: Seq<u8>,
    ts: Timestamp,
    akid: Seq<u8>,
    secret: Seq<u8>,
) -> Result<(Seq<u8>, Seq<u8>, Seq<u8>), SigError> {
    if !sign_inputs_wf(method, endpoint, extras, region, service, akid, secret) {
        Err(SigError::MalformedRequest)
    } else if !ts_valid(ts) {
        Err(SigError::TimeFormatError)
    } else {
        let hostv = endpoint_host(endpoint);
        let stamp = render_ts_spec(ts);
        let m = signing_pairs(extras, hostv, stamp);
        let names = sort_names(names_of(m));
        let ps = subset_spec(m, names);
        Ok(
            (
                auth_value_spec(method, endpoint, ps, body, region, service, ts, akid, secret),
                stamp,
                hostv,
            ),
        )
    }
}

/// Relates an executable signing result to `sign_spec`.
pub open spec fn matches_sign_spec(
    r: Result<SignedRequest, SigError>,
    s: Result<(Seq<u8>, Seq<u8>, Seq<u8>), SigError>,
) -> bool {
    match (r, s) {
        (Ok(sr), Ok(t)) => sr.authorization@ == t.0 && sr.x_amz_date@ == t.1 && sr.host@ == t.2,
        (Err(a), Err(b)) => a == b,
        _ => false,
    }
}

/// Every name in the signing map is already lowercase.
pub(crate) proof fn lemma_signing_pairs_lower(extras: Seq<(Seq<u8>, Seq<u8>)>, hostv: Seq<u8>, stamp: Seq<u8>)
    ensures
        forall|i: int|
            0 <= i < signing_pairs(extras, hostv, stamp).len() ==> lower_seq(
                #[trigger] signing_pairs(extras, hostv, stamp)[i].0,
            ) == signing_pairs(extras, hostv, stamp)[i].0,
{
    let m = signing_pairs(extras, hostv, stamp);
    assert forall|i: int| 0 <= i < m.len() implies lower_seq(#[trigger] m[i].0) == m[i].0 by {
        if i < extras.len() {
            assert(m[i].0 == lower_seq(extras[i].0));
            assert(lower_seq(lower_seq(extras[i].0)) =~= lower_seq(extras[i].0));
        } else if i == extras.len() {
            assert(m[i].0 == spec_host_name());
            assert(lower_seq(spec_host_name()) =~= spec_host_name());
        } else {
            assert(m[i].0 == spec_x_amz_date_name());
            assert(lower_seq(spec_x_amz_date_name()) =~= spec_x_amz_date_name());
        }
    }
}

/// A name of the map is always found by lookup, provided the map's names are
/// already lowercase.
proof fn lemma_lookup_present(m: Seq<(Seq<u8>, Seq<u8>)>, n: Seq<u8>)
    requires
        forall|i: int| 0 <= i < m.len() ==> lower_seq(#[trigger] m[i].0) == m[i].0,
        names_of(m).contains(n),
    ensures
        lookup_spec(m, n) is Some,
    decreases m.len(),
{
    assert(m.len() > 0);
    if lower_seq(m[0].0) == n {
    } else {
        assert(names_of(m)[0] == m[0].0);
        let i = choose|i: int| 0 <= i < names_of(m).len() && names_of(m)[i] == n;
        assert(names_of(m)[i] == m[i].0);
        assert(i != 0);
        assert(names_of(m.drop_first())[i - 1] == m[i].0);
        assert(names_of(m.drop_first()).contains(n));
        lemma_lookup_present(m.drop_first(), n);
    }
}

/// Signs a request: derives the signed-header set (the caller's headers plus
/// `host` and `x-amz-date`, sorted), the canonical request, and the
/// Authorization value. Fails with `MalformedRequest` exactly on ill-formed
/// inputs and with `TimeFormatError` exactly on an invalid timestamp.
#[verifier::loop_isolation(false)]
pub fn sign_request(
    method: &Vec<u8>,
    endpoint: &Vec<u8>,
    extra_headers: &Vec<(Vec<u8>, Vec<u8>)>,
    body: &Vec<u8>,
    ctx: &SigningContext,
    identity: &Identity,
) -> (r: Result<SignedRequest, SigError>)
    ensures
        matches_sign_spec(
            r,
            sign_spec(
                method@,
                endpoint@,
                pair_views(extra_headers@),
                body@,
                ctx.region@,
                ctx.service@,
                ctx.timestamp,
                identity.access_key_id@,
                identity.secret_key@,
            ),
        ),
{
    let ghost evs = pair_views(extra_headers@);
    if method.len() == 0 || endpoint.len() == 0 || !check_extras(extra_headers) || !check_cred_token(
        &identity.access_key_id,
    ) || !check_cred_token(&ctx.region) || !check_cred_token(&ctx.service) || !check_ascii(
        &identity.secret_key,
    ) {
        return Err(SigError::MalformedRequest);
    }
    let ts = ctx.timestamp;
    if !(1970 <= ts.year && ts.year <= 9999 && 1 <= ts.month && ts.month <= 12 && 1 <= ts.day
        && ts.day <= days_in_month(ts.year, ts.month) && ts.hour <= 23 && ts.minute <= 59
        && ts.second <= 59) {
        return Err(SigError::TimeFormatError);
    }
    let parts = split_endpoint(endpoint);
    let hostv = parts.0;
    let stamp = render_timestamp(&ts);

    // The full header map with lowercased names.
    let mut m: Vec<(Vec<u8>, Vec<u8>)> = Vec::new();
    let mut i: usize = 0;
    while i < extra_headers.len()
        invariant
            i <= extra_headers@.len(),
            m@.len() == i,
            forall|k: int|
                0 <= k < i ==> #[trigger] m@[k].0@ == lower_seq(evs[k].0) && m@[k].1@ == evs[k].1,
        decreases extra_headers@.len() - i,
    {
        proof {
            assert(evs[i as int] == (extra_headers@[i as int].0@, extra_headers@[i as int].1@));
        }
        m.push((to_lower(&extra_headers[i].0), copy_bytes(&extra_headers[i].1)));
        i += 1;
    }
    m.push((host_name(), copy_bytes(&hostv)));
    m.push((x_amz_date_name(), copy_bytes(&stamp)));
    proof {
        assert(pair_views(m@) =~~= signing_pairs(evs, hostv@, stamp@));
    }
    let ghost mv = pair_views(m@);

    // The sorted signed-header names.
    let mut raw_names: Vec<Vec<u8>> = Vec::new();
    let mut k: usize = 0;
    while k < m.len()
        invariant
            k <= m@.len(),
            raw_names@.len() == k,
            forall|j: int| 0 <= j < k ==> #[trigger] raw_names@[j]@ == mv[j].0,
        decreases m@.len() - k,
    {
        proof {
            assert(mv[k as int] == (m@[k as int].0@, m@[k as int].1@));
        }
        raw_names.push(copy_bytes(&m[k].0));
        k += 1;
    }
    proof {
        assert(views(raw_names@) =~~= names_of(mv));
    }
    let sorted = sort_names_exec(raw_names);
    let ghost nv = views(sorted@);

    // The ordered signed-header pairs.
    proof {
        lemma_signing_pairs_lower(evs, hostv@, stamp@);
        assert forall|i2: int| 0 <= i2 < nv.len() implies lookup_spec(mv, #[trigger] nv[i2])
            is Some by {
            assert(nv.contains(nv[i2]));
            lemma_sort_contains(names_of(mv), nv[i2]);
            lemma_lookup_present(mv, nv[i2]);
        }
    }
    let ps = match build_subset(&m, &sorted) {
        Ok(ps) => ps,
        Err(_) => {
            proof {
                assert(false);
            }
            return Err(SigError::MalformedRequest);
        },
    };

    // The Authorization value.
    proof {
        assert(is_ascii_seq(ctx.region@));
        assert(is_ascii_seq(ctx.service@));
    }
    let auth = compute_authorization(
        method,
        endpoint,
        &ps,
        body,
        &ctx.region,
        &ctx.service,
        &ts,
        &identity.access_key_id,
        &identity.secret_key,
    );
    Ok(SignedRequest { authorization: auth, x_amz_date: stamp, host: hostv })
}

} // verus!
