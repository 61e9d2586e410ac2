use vstd::prelude::*;
use crate::bytes::{
    copy_bytes, copy_range, find_byte, find_byte_from, lemma_find_byte_from_bounds, pair_views,
    push_all, trim, trim_spec, views,
};
use crate::consts::{
    algorithm_bytes, aws4_request_bytes, credential_sep, signature_sep, signed_headers_token,
    spec_algorithm_bytes, spec_aws4_request_bytes, spec_credential_sep, spec_signature_sep,
    spec_signed_headers_token,
};
use crate::crypto::{
    derive_signing_key, hex_encode, hex_seq, hmac_hex, hmac_hex_of, is_ascii_seq, sha256,
    sha256_of, signing_key_of,
};
use crate::timestamp::{
    date8_spec, epoch_secs_spec, epoch_seconds, lemma_epoch_secs_bound, render_timestamp,
    render_ts_spec, ts_valid, Timestamp,
};

verus! {

// ---------------------------------------------------------------------------
// Endpoint splitting
// ---------------------------------------------------------------------------

/// The position of the first `://` at or after `i`, or the length if none.
pub open spec fn scheme_pos(s: Seq<u8>, i: int) -> int
    decreases s.len() - i when 0 <= i <= s.len()
{
    if i + 3 > s.len() {
        s.len() as int
    } else if s[i] == 58 && s[i + 1] == 47 && s[i + 2] == 47 {
        i
    } else {
        scheme_pos(s, i + 1)
    }
}

/// Where the authority of the endpoint begins: just after `://`, or at the
/// start when the endpoint carries no scheme.
pub open spec fn rest_start(s: Seq<u8>) -> int {
    if scheme_pos(s, 0) == s.len() {
        0
    } else {
        scheme_pos(s, 0) + 3
    }
}

/// The authority (host, with any port) of the endpoint: from the start of the
/// authority to the first `/` or `?`, or the end.
pub open spec fn endpoint_host(s: Seq<u8>) -> Seq<u8> {
    let r = rest_start(s);
    let sl = find_byte_from(s, 47, r);
    let qm = find_byte_from(s, 63, r);
    if sl <= qm {
        s.subrange(r, sl)
    } else {
        s.subrange(r, qm)
    }
}

/// The canonical path: from the first `/` after the authority up to the
/// query, or `/` when the endpoint has no path.
pub open spec fn endpoint_path(s: Seq<u8>) -> Seq<u8> {
    let r = rest_start(s);
    let sl = find_byte_from(s, 47, r);
    let qm = find_byte_from(s, 63, r);
    if sl < qm {
        s.subrange(sl, qm)
    } else {
        seq![47u8]
    }
}

/// The canonical query: everything after the first `?` past the authority,
/// or empty.
pub open spec fn endpoint_query(s: Seq<u8>) -> Seq<u8> {
    let r = rest_start(s);
    let qm = find_byte_from(s, 63, r);
    if qm < s.len() {
        s.subrange(qm + 1, s.len() as int)
    } else {
        Seq::empty()
    }
}

/// Executable counterpart of `rest_start`.
fn rest_start_exec(s: &Vec<u8>) -> (r: usize)
    ensures
        r == rest_start(s@),
        r <= s@.len(),
{
    let n = s.len();
    let mut i: usize = 0;
    while n - i >= 3
        invariant
            0 <= i <= n == s@.len(),
            scheme_pos(s@, 0) == scheme_pos(s@, i as int),
        decreases n - i,
    {
        if s[i] == 58 && s[i + 1] == 47 && s[i + 2] == 47 {
            assert(scheme_pos(s@, i as int) == i);
            return i + 3;
        }
        i += 1;
    }
    assert(scheme_pos(s@, i as int) == s@.len());
    0
}

/// Splits an endpoint into authority, canonical path, and canonical query.
pub fn split_endpoint(s: &Vec<u8>) -> (r: (Vec<u8>, Vec<u8>, Vec<u8>))
    ensures
        r.0@ == endpoint_host(s@),
        r.1@ == endpoint_path(s@),
        r.2@ == endpoint_query(s@),
{
    let rs = rest_start_exec(s);
    let sl = find_byte(s, 47, rs);
    let qm = find_byte(s, 63, rs);
    proof {
        lemma_find_byte_from_bounds(s@, 47, rs as int);
        lemma_find_byte_from_bounds(s@, 63, rs as int);
    }
    let host = if sl <= qm {
        copy_range(s, rs, sl)
    } else {
        copy_range(s, rs, qm)
    };
    let path = if sl < qm {
        copy_range(s, sl, qm)
    } else {
        let mut p: Vec<u8> = Vec::new();
        p.push(47);
        proof {
            assert(p@ =~= seq![47u8]);
        }
        p
    };
    let query = if qm < s.len() {
        copy_range(s, qm + 1, s.len())
    } else {
        Vec::new()
    };
    proof {
        assert(query@ =~= endpoint_query(s@));
    }
    (host, path, query)
}

// ---------------------------------------------------------------------------
// Canonical headers and the signed-header list
// ---------------------------------------------------------------------------

/// One canonical header line: lowercase name, a colon, the trimmed value,
/// and a newline.
pub open spec fn header_line(p: (Seq<u8>, Seq<u8>)) -> Seq<u8> {
    p.0 + seq![58u8] + trim_spec(p.1) + seq![10u8]
}

/// The canonical header block: one line per (name, value) pair, in the
/// given order.
pub open spec fn canon_headers(ps: Seq<(Seq<u8>, Seq<u8>)>) -> Seq<u8>
    decreases ps.len(),
{
    if ps.len() == 0 {
        Seq::empty()
    } else {
        header_line(ps[0]) + canon_headers(ps.drop_first())
    }
}

/// The names of a pair sequence, in order.
pub open spec fn names_of(ps: Seq<(Seq<u8>, Seq<u8>)>) -> Seq<Seq<u8>> {
    Seq::new(ps.len(), |i: int| ps[i].0)
}

/// The semicolon-joined signed-header list.
pub open spec fn join_semi(names: Seq<Seq<u8>>) -> Seq<u8>
    decreases names.len(),
{
    if names.len() == 0 {
        Seq::empty()
    } else if names.len() == 1 {
        names[0]
    } else {
        names[0] + seq![59u8] + join_semi(names.drop_first())
    }
}

/// Executable canonical header block over the pairs from index `from` on.
fn canon_headers_exec(ps: &Vec<(Vec<u8>, Vec<u8>)>, from: usize) -> (r: Vec<u8>)
    requires
        from <= ps@.len(),
    ensures
        r@ == canon_headers(pair_views(ps@).skip(from as int)),
    decreases ps@.len() - from,
{
    if from == ps.len() {
        let r: Vec<u8> = Vec::new();
        assert(r@ =~= canon_headers(pair_views(ps@).skip(from as int)));
        return r;
    }
    let pair = &ps[from];
    let mut r = copy_bytes(&pair.0);
    r.push(58);
    let t = trim(&pair.1);
    push_all(&mut r, &t);
    r.push(10);
    let rest = canon_headers_exec(ps, from + 1);
    push_all(&mut r, &rest);
    proof {
        let pv = pair_views(ps@);
        assert(pv.skip(from as int).drop_first() =~= pv.skip(from + 1));
        assert(pv.skip(from as int)[0] == (ps@[from as int].0@, ps@[from as int].1@));
        assert(r@ =~= canon_headers(pv.skip(from as int)));
    }
    r
}

/// Executable semicolon join over the names from index `from` on.
fn join_semi_exec(names: &Vec<Vec<u8>>, from: usize) -> (r: Vec<u8>)
    requires
        from <= names@.len(),
    ensures
        r@ == join_semi(views(names@).skip(from as int)),
    decreases names@.len() - from,
{
    if from == names.len() {
        let r: Vec<u8> = Vec::new();
        assert(r@ =~= join_semi(views(names@).skip(from as int)));
        return r;
    }
    let mut r = copy_bytes(&names[from]);
    proof {
        assert(views(names@).skip(from as int)[0] == names@[from as int]@);
    }
    if from + 1 == names.len() {
        proof {
            assert(views(names@).skip(from as int).len() == 1);
        }
        return r;
    }
    r.push(59);
    let rest = join_semi_exec(names, from + 1);
    push_all(&mut r, &rest);
    proof {
        assert(views(names@).skip(from as int).drop_first() =~= views(names@).skip(from + 1));
        assert(r@ =~= join_semi(views(names@).skip(from as int)));
    }
    r
}

// ---------------------------------------------------------------------------
// The canonical request, scope, string to sign, and Authorization value
// ---------------------------------------------------------------------------

/// The canonical request: method, canonical path, canonical query, the
/// canonical header block, the signed-header list, and the hex digest of the
/// body, newline-separated.
pub open spec fn canonical_request_spec(
    method: Seq<u8>,
    endpoint: Seq<u8>,
    ps: Seq<(Seq<u8>, Seq<u8>)>,
    body: Seq<u8>,
) -> Seq<u8> {
    method + seq![10u8] + endpoint_path(endpoint) + seq![10u8] + endpoint_query(endpoint)
        + seq![10u8] + canon_headers(ps) + seq![10u8] + join_semi(names_of(ps)) + seq![10u8]
        + hex_seq(sha256_of(body))
}

/// The credential scope: date, region, service, and the fixed terminator,
/// slash-separated.
pub open spec fn scope_spec(ts: Timestamp, region: Seq<u8>, service: Seq<u8>) -> Seq<u8> {
    date8_spec(ts) + seq![47u8] + region + seq![47u8] + service + seq![47u8]
        + spec_aws4_request_bytes()
}

/// The string to sign: algorithm, timestamp, scope, and the hex digest of
/// the canonical request, newline-separated.
pub open spec fn string_to_sign_spec(
    ts: Timestamp,
    region: Seq<u8>,
    service: Seq<u8>,
    creq: Seq<u8>,
) -> Seq<u8> {
    spec_algorithm_bytes() + seq![10u8] + render_ts_spec(ts) + seq![10u8] + scope_spec(
        ts,
        region,
        service,
    ) + seq![10u8] + hex_seq(sha256_of(creq))
}

/// The final hex signature: the keyed hash of the string to sign under the
/// derived signing key.
pub open spec fn signature_hex_spec(
    method: Seq<u8>,
    endpoint: Seq<u8>,
    ps: Seq<(Seq<u8>, Seq<u8>)>,
    body: Seq<u8>,
    region: Seq<u8>,
    service: Seq<u8>,
    ts: Timestamp,
    secret: Seq<u8>,
) -> Seq<u8> {
    hmac_hex_of(
        signing_key_of(secret, epoch_secs_spec(ts) as u64, region, service),
        string_to_sign_spec(
            ts,
            region,
            service,
            canonical_request_spec(method, endpoint, ps, body),
        ),
    )
}

/// The Authorization header value presented with a signed request.
pub open spec fn auth_value_spec(
    method: Seq<u8>,
    endpoint: Seq<u8>,
    ps: Seq<(Seq<u8>, Seq<u8>)>,
    body: Seq<u8>,
    region: Seq<u8>,
    service: Seq<u8>,
    ts: Timestamp,
    akid: Seq<u8>,
    secret: Seq<u8>,
) -> Seq<u8> {
    spec_algorithm_bytes() + spec_credential_sep() + akid + seq![47u8] + scope_spec(
        ts,
        region,
        service,
    ) + seq![44u8, 32u8] + spec_signed_headers_token() + join_semi(names_of(ps))
        + spec_signature_sep() + signature_hex_spec(
        method,
        endpoint,
        ps,
        body,
        region,
        service,
        ts,
        secret,
    )
}

/// Computes the Authorization value for the given ordered signed-header
/// pairs: the engine shared by the signer and the verifier.
pub fn compute_authorization(
    method: &Vec<u8>,
    endpoint: &Vec<u8>,
    ps: &Vec<(Vec<u8>, Vec<u8>)>,
    body: &Vec<u8>,
    region: &Vec<u8>,
    service: &Vec<u8>,
    ts: &Timestamp,
    akid: &Vec<u8>,
    secret: &Vec<u8>,
) -> (r: Vec<u8>)
    requires
        ts_valid(*ts),
        is_ascii_seq(secret@),
        is_ascii_seq(region@),
        is_ascii_seq(service@),
    ensures
        r@ == auth_value_spec(
            method@,
            endpoint@,
            pair_views(ps@),
            body@,
            region@,
            service@,
            *ts,
            akid@,
            secret@,
        ),
{
    // Names once, for both the canonical request and the Authorization value.
    let mut names: Vec<Vec<u8>> = Vec::new();
    let mut i: usize = 0;
    while i < ps.len()
        invariant
            i <= ps@.len(),
            views(names@) == names_of(pair_views(ps@)).take(i as int),
        decreases ps@.len() - i,
    {
        let ghost pre = views(names@);
        names.push(copy_bytes(&ps[i].0));
        proof {
            assert(views(names@) =~~= pre.push(ps@[i as int].0@));
            assert(names_of(pair_views(ps@)).take(i + 1) =~~= names_of(pair_views(ps@)).take(
                i as int,
            ).push(ps@[i as int].0@));
        }
        i += 1;
    }
    proof {
        assert(names_of(pair_views(ps@)).take(ps@.len() as int) =~= names_of(pair_views(ps@)));
    }
    let joined = join_semi_exec(&names, 0);
    proof {
        assert(views(names@).skip(0) =~= views(names@));
    }

    // The canonical request.
    let parts = split_endpoint(endpoint);
    let mut creq = copy_bytes(method);
    creq.push(10);
    push_all(&mut creq, &parts.1);
    creq.push(10);
    push_all(&mut creq, &parts.2);
    creq.push(10);
    let block = canon_headers_exec(ps, 0);
    push_all(&mut creq, &block);
    creq.push(10);
    push_all(&mut creq, &joined);
    creq.push(10);
    let body_digest = sha256(body);
    let body_hex = hex_encode(&body_digest);
    push_all(&mut creq, &body_hex);
    proof {
        assert(pair_views(ps@).skip(0) =~= pair_views(ps@));
        assert(creq@ =~= canonical_request_spec(method@, endpoint@, pair_views(ps@), body@));
    }

    // The scope.
    let mut scope = crate::timestamp::render_date8(ts);
    scope.push(47);
    push_all(&mut scope, region);
    scope.push(47);
    push_all(&mut scope, service);
    scope.push(47);
    let a4r = aws4_request_bytes();
    push_all(&mut scope, &a4r);
    proof {
        assert(scope@ =~= scope_spec(*ts, region@, service@));
    }

    // The string to sign.
    let mut sts = algorithm_bytes();
    sts.push(10);
    let stamp = render_timestamp(ts);
    push_all(&mut sts, &stamp);
    sts.push(10);
    push_all(&mut sts, &scope);
    sts.push(10);
    let creq_digest = sha256(&creq);
    let creq_hex = hex_encode(&creq_digest);
    push_all(&mut sts, &creq_hex);
    proof {
        assert(sts@ =~= string_to_sign_spec(*ts, region@, service@, creq@));
    }

    // The signature.
    proof {
        lemma_epoch_secs_bound(*ts);
    }
    let ep = epoch_seconds(ts);
    let key = derive_signing_key(secret, ep, region, service);
    let sig = hmac_hex(&key, &sts);

    // The Authorization value.
    let mut auth = algorithm_bytes();
    let cred = credential_sep();
    push_all(&mut auth, &cred);
    push_all(&mut auth, akid);
    auth.push(47);
    push_all(&mut auth, &scope);
    auth.push(44);
    auth.push(32);
    let tok = signed_headers_token();
    push_all(&mut auth, &tok);
    push_all(&mut auth, &joined);
    let ssep = signature_sep();
    push_all(&mut auth, &ssep);
    push_all(&mut auth, &sig);
    proof {
        assert(ep == epoch_secs_spec(*ts) as u64);
        assert(auth@ =~= auth_value_spec(
            method@,
            endpoint@,
            pair_views(ps@),
            body@,
            region@,
            service@,
            *ts,
            akid@,
            secret@,
        ));
    }
    auth
}

} // verus!
