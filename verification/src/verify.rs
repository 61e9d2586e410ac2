use vstd::prelude::*;
use crate::authparse::{extract_signed_headers, extract_spec};
use crate::bytes::{ct_eq, views, wf_cred_token};
use crate::consts::{
    authorization_name, host_name, spec_authorization_name, spec_host_name, spec_x_amz_date_name,
    x_amz_date_name,
};
use crate::crypto::is_ascii_seq;
use crate::engine::{auth_value_spec, compute_authorization};
use crate::errors::SigError;
use crate::signer::{
    build_subset, check_ascii, check_cred_token, lookup, lookup_spec, lookup_val, subset_spec,
    Identity,
};
use crate::timestamp::{parse_timestamp, parse_ts_spec, ts_valid};

verus! {

/// The verifier's own configuration is usable: non-empty expectations and
/// well-formed credential material.
pub open spec fn verify_inputs_wf(
    method: Seq<u8>,
    endpoint: Seq<u8>,
    region: Seq<u8>,
    service: Seq<u8>,
    akid: Seq<u8>,
    secret: Seq<u8>,
) -> bool {
    &&& method.len() > 0
    &&& endpoint.len() > 0
    &&& wf_cred_token(akid)
    &&& wf_cred_token(region)
    &&& wf_cred_token(service)
    &&& is_ascii_seq(secret)
}

/// What verification decides, step by step: find the presented Authorization
/// header; extract the claimed signed-header names; demand that `host` and
/// `x-amz-date` are among them and that every claimed header is actually
/// present; parse the presented timestamp; recompute the expected
/// Authorization value over exactly the claimed headers; and accept only on
/// an exact match.
pub open spec fn verify_spec(
    method: Seq<u8>,
    endpoint: Seq<u8>,
    headers: Seq<(Seq<u8>, Seq<u8>)>,
    body: Seq<u8>,
    region: Seq<u8>,
    service: Seq<u8>,
    akid: Seq<u8>,
    secret: Seq<u8>,
) -> Result<(), SigError> {
    if !verify_inputs_wf(method, endpoint, region, service, akid, secret) {
        Err(SigError::MalformedRequest)
    } else {
        match lookup_spec(headers, spec_authorization_name()) {
            None => Err(SigError::MalformedRequest),
            Some(auth) => match extract_spec(auth) {
                Err(e) => Err(e),
                Ok(names) => if !names.contains(spec_host_name()) || !names.contains(
                    spec_x_amz_date_name(),
                ) {
                    Err(SigError::MalformedRequest)
                } else if exists|i: int|
                    0 <= i < names.len() && lookup_spec(headers, #[trigger] names[i]) is None {
                    Err(SigError::MalformedRequest)
                } else {
                    match parse_ts_spec(lookup_val(headers, spec_x_amz_date_name())) {
                        None => Err(SigError::TimeFormatError),
                        Some(ts) => {
                            if auth == auth_value_spec(
                                method,
                                endpoint,
                                subset_spec(headers, names),
                                body,
                                region,
                                service,
                                ts,
                                akid,
                                secret,
                            ) {
                                Ok(())
                            } else {
                                Err(SigError::SignatureMismatch)
                            }
                        },
                    }
                },
            },
        }
    }
}

/// Whether a list of names holds `n`.
#[verifier::loop_isolation(false)]
fn contains_name(names: &Vec<Vec<u8>>, n: &Vec<u8>) -> (r: bool)
    ensures
        r == views(names@).contains(n@),
{
    let mut i: usize = 0;
    while i < names.len()
        invariant
            i <= names@.len(),
            forall|k: int| 0 <= k < i ==> #[trigger] views(names@)[k] != n@,
        decreases names@.len() - i,
    {
        proof {
            assert(views(names@)[i as int] == names@[i as int]@);
        }
        if ct_eq(&names[i], n) {
            return true;
        }
        i += 1;
    }
    proof {
        if views(names@).contains(n@) {
            let k = choose|k: int| 0 <= k < views(names@).len() && views(names@)[k] == n@;
            assert(views(names@)[k] != n@);
        }
    }
    false
}

/// Decides whether an inbound request's presented signature matches one
/// recomputed from the same material: the claimed signed headers are taken
/// from the actual inbound header map, never from the Authorization string
/// itself, and the final comparison runs in constant time. `Ok(())` is
/// acceptance; every error is a rejection.
#[verifier::loop_isolation(false)]
pub fn verify_request(
    method: &Vec<u8>,
    endpoint: &Vec<u8>,
    headers: &Vec<(Vec<u8>, Vec<u8>)>,
    body: &Vec<u8>,
    region: &Vec<u8>,
    service: &Vec<u8>,
    identity: &Identity,
) -> (r: Result<(), SigError>)
    ensures
        r == verify_spec(
            method@,
            endpoint@,
            crate::bytes::pair_views(headers@),
            body@,
            region@,
            service@,
            identity.access_key_id@,
            identity.secret_key@,
        ),
{
    let ghost hv = crate::bytes::pair_views(headers@);
    if method.len() == 0 || endpoint.len() == 0 || !check_cred_token(&identity.access_key_id)
        || !check_cred_token(region) || !check_cred_token(service) || !check_ascii(
        &identity.secret_key,
    ) {
        return Err(SigError::MalformedRequest);
    }
    let auth_key = authorization_name();
    let auth = match lookup(headers, &auth_key) {
        Some(v) => v,
        None => {
            return Err(SigError::MalformedRequest);
        },
    };
    let names = match extract_signed_headers(&auth) {
        Ok(ns) => ns,
        Err(e) => {
            return Err(e);
        },
    };
    let ghost nv = views(names@);
    let host_key = host_name();
    let date_key = x_amz_date_name();
    if !contains_name(&names, &host_key) || !contains_name(&names, &date_key) {
        return Err(SigError::MalformedRequest);
    }
    let ps = match build_subset(headers, &names) {
        Ok(ps) => ps,
        Err(_) => {
            return Err(SigError::MalformedRequest);
        },
    };
    let stamp = match lookup(headers, &date_key) {
        Some(v) => v,
        None => {
            proof {
                let k = choose|k: int| 0 <= k < nv.len() && nv[k] == spec_x_amz_date_name();
                assert(lookup_spec(hv, nv[k]) is Some);
                assert(false);
            }
            return Err(SigError::MalformedRequest);
        },
    };
    let ts = match parse_timestamp(&stamp) {
        Ok(ts) => ts,
        Err(_) => {
            return Err(SigError::TimeFormatError);
        },
    };
    proof {
        assert(ts_valid(ts));
    }
    let expected = compute_authorization(
        method,
        endpoint,
        &ps,
        body,
        region,
        service,
        &ts,
        &identity.access_key_id,
        &identity.secret_key,
    );
    if ct_eq(&expected, &auth) {
        Ok(())
    } else {
        Err(SigError::SignatureMismatch)
    }
}

} // verus!
