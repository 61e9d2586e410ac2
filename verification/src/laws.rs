use vstd::prelude::*;
use crate::authparse::{extract_spec, find_sep, find_token, lemma_find_sep_skip, lemma_find_token_skip, lemma_split_semi_nonempty, split_semi, token_at};
use crate::bytes::{insert_name, lower_seq, sort_names, wf_cred_token, wf_input_name, wf_name};
use crate::engine::{auth_value_spec, endpoint_host, join_semi, names_of, scope_spec};
use crate::timestamp::{date8_spec, render_ts_spec, ts_valid};
use crate::errors::SigError;
use crate::signer::{
    extra_ok, extras_wf, lookup_spec, lookup_val, lower_name_at, matches_sign_spec, sign_spec,
    signing_pairs, subset_spec, SignedRequest,
};
use crate::timestamp::Timestamp;
use crate::verify::verify_spec;

verus! {

// ---------------------------------------------------------------------------
// Determinism
// ---------------------------------------------------------------------------

/// Signing is deterministic: two signed requests produced from the same
/// method, endpoint, headers, body, context and identity agree on the
/// Authorization, `X-Amz-Date` and `Host` values, and two failures agree on
/// the error.
pub proof fn lemma_sign_deterministic(
    r1: Result<SignedRequest, SigError>,
    r2: Result<SignedRequest, SigError>,
    method: Seq<u8>,
    endpoint: Seq<u8>,
    extras: Seq<(Seq<u8>, Seq<u8>)>,
    body: Seq<u8>,
    region: Seq<u8>,
    service: Seq<u8>,
    ts: Timestamp,
    akid: Seq<u8>,
    secret: Seq<u8>,
)
    requires
        matches_sign_spec(r1, sign_spec(method, endpoint, extras, body, region, service, ts, akid, secret)),
        matches_sign_spec(r2, sign_spec(method, endpoint, extras, body, region, service, ts, akid, secret)),
    ensures
        match (r1, r2) {
            (Ok(a), Ok(b)) => a.authorization@ == b.authorization@ && a.x_amz_date@
                == b.x_amz_date@ && a.host@ == b.host@,
            (Err(a), Err(b)) => a == b,
            _ => false,
        },
{
}

// ---------------------------------------------------------------------------
// Case-insensitivity of header names
// ---------------------------------------------------------------------------

/// Two header lists that differ only in the case of their names: same
/// length, names equal after lowercasing, values equal.
pub open spec fn same_up_to_name_case(
    a: Seq<(Seq<u8>, Seq<u8>)>,
    b: Seq<(Seq<u8>, Seq<u8>)>,
) -> bool {
    a.len() == b.len() && forall|i: int|
        0 <= i < a.len() ==> lower_seq(#[trigger] a[i].0) == lower_seq(#[trigger] b[i].0)
            && a[i].1 == b[i].1
}

/// The case of a header name never matters to signing: two header sets that
/// differ only in name case produce the same signing outcome, down to the
/// exact Authorization value or the exact error.
pub proof fn lemma_sign_case_insensitive(
    method: Seq<u8>,
    endpoint: Seq<u8>,
    a: Seq<(Seq<u8>, Seq<u8>)>,
    b: Seq<(Seq<u8>, Seq<u8>)>,
    body: Seq<u8>,
    region: Seq<u8>,
    service: Seq<u8>,
    ts: Timestamp,
    akid: Seq<u8>,
    secret: Seq<u8>,
)
    requires
        same_up_to_name_case(a, b),
    ensures
        sign_spec(method, endpoint, a, body, region, service, ts, akid, secret) == sign_spec(
            method,
            endpoint,
            b,
            body,
            region,
            service,
            ts,
            akid,
            secret,
        ),
{
    assert forall|i: int| 0 <= i < a.len() implies (extra_ok(a, i) == extra_ok(b, i)
        && lower_name_at(a, i) == lower_name_at(b, i)) by {
        assert(wf_input_name(a[i].0) == wf_input_name(b[i].0));
    }
    assert(extras_wf(a) == extras_wf(b)) by {
        if extras_wf(a) {
            assert forall|i: int| 0 <= i < b.len() implies #[trigger] extra_ok(b, i) by {
                assert(extra_ok(a, i));
            }
            assert forall|i: int, j: int| 0 <= i < j < b.len() implies #[trigger] lower_name_at(
                b,
                i,
            ) != #[trigger] lower_name_at(b, j) by {
                assert(lower_name_at(a, i) != lower_name_at(a, j));
            }
        }
        if extras_wf(b) {
            assert forall|i: int| 0 <= i < a.len() implies #[trigger] extra_ok(a, i) by {
                assert(extra_ok(b, i));
            }
            assert forall|i: int, j: int| 0 <= i < j < a.len() implies #[trigger] lower_name_at(
                a,
                i,
            ) != #[trigger] lower_name_at(a, j) by {
                assert(lower_name_at(b, i) != lower_name_at(b, j));
            }
        }
    }
    assert(signing_pairs(a, crate::engine::endpoint_host(endpoint), crate::timestamp::render_ts_spec(ts))
        =~~= signing_pairs(b, crate::engine::endpoint_host(endpoint), crate::timestamp::render_ts_spec(ts)));
}

/// Lookup sees only the lowercased names: two header maps that differ only
/// in name case answer every lookup alike.
pub proof fn lemma_lookup_case_insensitive(
    a: Seq<(Seq<u8>, Seq<u8>)>,
    b: Seq<(Seq<u8>, Seq<u8>)>,
    n: Seq<u8>,
)
    requires
        same_up_to_name_case(a, b),
    ensures
        lookup_spec(a, n) == lookup_spec(b, n),
    decreases a.len(),
{
    if a.len() != 0 {
        assert(lower_seq(a[0].0) == lower_seq(b[0].0));
        if lower_seq(a[0].0) != n {
            assert(same_up_to_name_case(a.drop_first(), b.drop_first())) by {
                assert forall|i: int| 0 <= i < a.drop_first().len() implies lower_seq(
                    #[trigger] a.drop_first()[i].0,
                ) == lower_seq(#[trigger] b.drop_first()[i].0) && a.drop_first()[i].1
                    == b.drop_first()[i].1 by {
                    assert(a.drop_first()[i] == a[i + 1]);
                    assert(b.drop_first()[i] == b[i + 1]);
                }
            }
            lemma_lookup_case_insensitive(a.drop_first(), b.drop_first(), n);
        }
    }
}

/// The case of inbound header names never matters to verification: a signed
/// header transmitted as `Host`, `HOST` or `host` canonicalizes identically,
/// and the whole decision is unchanged.
pub proof fn lemma_verify_case_insensitive(
    method: Seq<u8>,
    endpoint: Seq<u8>,
    a: Seq<(Seq<u8>, Seq<u8>)>,
    b: Seq<(Seq<u8>, Seq<u8>)>,
    body: Seq<u8>,
    region: Seq<u8>,
    service: Seq<u8>,
    akid: Seq<u8>,
    secret: Seq<u8>,
)
    requires
        same_up_to_name_case(a, b),
    ensures
        verify_spec(method, endpoint, a, body, region, service, akid, secret) == verify_spec(
            method,
            endpoint,
            b,
            body,
            region,
            service,
            akid,
            secret,
        ),
{
    assert forall|n: Seq<u8>| #[trigger] lookup_spec(a, n) == lookup_spec(b, n) by {
        lemma_lookup_case_insensitive(a, b, n);
    }
    match lookup_spec(a, crate::consts::spec_authorization_name()) {
        None => {},
        Some(auth) => {
            match crate::authparse::extract_spec(auth) {
                Err(_) => {},
                Ok(names) => {
                    assert(subset_spec(a, names) =~~= subset_spec(b, names));
                    assert((exists|i: int|
                        0 <= i < names.len() && lookup_spec(a, #[trigger] names[i]) is None)
                        == (exists|i: int|
                        0 <= i < names.len() && lookup_spec(b, #[trigger] names[i]) is None)) by {
                        if exists|i: int|
                            0 <= i < names.len() && lookup_spec(a, #[trigger] names[i]) is None {
                            let i = choose|i: int|
                                0 <= i < names.len() && lookup_spec(a, #[trigger] names[i])
                                    is None;
                            assert(lookup_spec(b, names[i]) is None);
                        }
                        if exists|i: int|
                            0 <= i < names.len() && lookup_spec(b, #[trigger] names[i]) is None {
                            let i = choose|i: int|
                                0 <= i < names.len() && lookup_spec(b, #[trigger] names[i])
                                    is None;
                            assert(lookup_spec(a, names[i]) is None);
                        }
                    }
                },
            }
        },
    }
}


// ---------------------------------------------------------------------------
// Lookup decomposition
// ---------------------------------------------------------------------------

/// A lookup walks past a prefix none of whose names match.
proof fn lemma_lookup_concat_miss(
    m1: Seq<(Seq<u8>, Seq<u8>)>,
    m2: Seq<(Seq<u8>, Seq<u8>)>,
    n: Seq<u8>,
)
    requires
        forall|i: int| 0 <= i < m1.len() ==> lower_seq(#[trigger] m1[i].0) != n,
    ensures
        lookup_spec(m1 + m2, n) == lookup_spec(m2, n),
    decreases m1.len(),
{
    if m1.len() == 0 {
        assert(m1 + m2 =~= m2);
    } else {
        assert((m1 + m2)[0] == m1[0]);
        assert((m1 + m2).drop_first() =~= m1.drop_first() + m2);
        assert forall|i: int| 0 <= i < m1.drop_first().len() implies lower_seq(
            #[trigger] m1.drop_first()[i].0,
        ) != n by {
            assert(m1.drop_first()[i] == m1[i + 1]);
        }
        lemma_lookup_concat_miss(m1.drop_first(), m2, n);
    }
}

/// A hit in a prefix is a hit in the whole.
proof fn lemma_lookup_prefix_hit(
    m1: Seq<(Seq<u8>, Seq<u8>)>,
    m2: Seq<(Seq<u8>, Seq<u8>)>,
    n: Seq<u8>,
    v: Seq<u8>,
)
    requires
        lookup_spec(m1, n) == Some(v),
    ensures
        lookup_spec(m1 + m2, n) == Some(v),
    decreases m1.len(),
{
    assert(m1.len() > 0);
    assert((m1 + m2)[0] == m1[0]);
    if lower_seq(m1[0].0) != n {
        assert((m1 + m2).drop_first() =~= m1.drop_first() + m2);
        lemma_lookup_prefix_hit(m1.drop_first(), m2, n, v);
    }
}

/// Where names below `k` miss, the lookup answers with entry `k`.
proof fn lemma_lookup_at(m: Seq<(Seq<u8>, Seq<u8>)>, k: int, n: Seq<u8>)
    requires
        0 <= k < m.len(),
        lower_seq(m[k].0) == n,
        forall|i: int| 0 <= i < k ==> lower_seq(#[trigger] m[i].0) != n,
    ensures
        lookup_spec(m, n) == Some(m[k].1),
    decreases k,
{
    if k > 0 {
        assert(lower_seq(m[0].0) != n);
        assert(m.drop_first()[k - 1] == m[k]);
        assert forall|i: int| 0 <= i < k - 1 implies lower_seq(#[trigger] m.drop_first()[i].0)
            != n by {
            assert(m.drop_first()[i] == m[i + 1]);
        }
        lemma_lookup_at(m.drop_first(), k - 1, n);
    }
}

// ---------------------------------------------------------------------------
// The joined signed-header list and its inverse
// ---------------------------------------------------------------------------

/// Every byte of the joined list is a name byte or a semicolon.
proof fn lemma_join_bytes(names: Seq<Seq<u8>>)
    requires
        forall|i: int| 0 <= i < names.len() ==> wf_name(#[trigger] names[i]),
    ensures
        forall|t: int|
            0 <= t < join_semi(names).len() ==> crate::bytes::is_name_byte(
                #[trigger] join_semi(names)[t],
            ) || join_semi(names)[t] == 59,
    decreases names.len(),
{
    if names.len() > 1 {
        assert forall|i: int| 0 <= i < names.drop_first().len() implies wf_name(
            #[trigger] names.drop_first()[i],
        ) by {
            assert(names.drop_first()[i] == names[i + 1]);
        }
        lemma_join_bytes(names.drop_first());
        let j = join_semi(names);
        let h = names[0];
        let rest = join_semi(names.drop_first());
        assert(j == h + seq![59u8] + rest);
        assert forall|t: int| 0 <= t < j.len() implies crate::bytes::is_name_byte(
            #[trigger] j[t],
        ) || j[t] == 59 by {
            if t < h.len() {
                assert(j[t] == h[t]);
            } else if t == h.len() {
                assert(j[t] == 59);
            } else {
                assert(j[t] == rest[t - h.len() - 1]);
            }
        }
    }
}

/// Splitting after prepending a semicolon-free prefix extends the first
/// segment and leaves the rest alone.
proof fn lemma_split_prefix(a: Seq<u8>, w: Seq<u8>)
    requires
        forall|i: int| 0 <= i < a.len() ==> #[trigger] a[i] != 59,
    ensures
        split_semi(a + w) == seq![a + split_semi(w)[0]] + split_semi(w).drop_first(),
    decreases a.len(),
{
    lemma_split_semi_nonempty(w);
    if a.len() == 0 {
        assert(a + w =~= w);
        assert(a + split_semi(w)[0] =~= split_semi(w)[0]);
        assert(seq![split_semi(w)[0]] + split_semi(w).drop_first() =~= split_semi(w));
    } else {
        assert((a + w)[0] == a[0]);
        assert((a + w).drop_first() =~= a.drop_first() + w);
        assert forall|i: int| 0 <= i < a.drop_first().len() implies #[trigger] a.drop_first()[i]
            != 59 by {
            assert(a.drop_first()[i] == a[i + 1]);
        }
        lemma_split_prefix(a.drop_first(), w);
        let s = split_semi(a + w);
        let rest = split_semi((a + w).drop_first());
        assert(s == seq![seq![a[0]] + rest[0]] + rest.drop_first());
        assert(rest == seq![a.drop_first() + split_semi(w)[0]] + split_semi(w).drop_first());
        assert(rest[0] == a.drop_first() + split_semi(w)[0]);
        assert(seq![a[0]] + (a.drop_first() + split_semi(w)[0]) =~= a + split_semi(w)[0]);
        assert(rest.drop_first() =~= split_semi(w).drop_first());
        assert(s =~= seq![a + split_semi(w)[0]] + split_semi(w).drop_first());
    }
}

/// Splitting undoes joining: the round trip over well-formed names gives
/// back exactly the same name list.
pub proof fn lemma_split_join(names: Seq<Seq<u8>>)
    requires
        names.len() > 0,
        forall|i: int| 0 <= i < names.len() ==> wf_name(#[trigger] names[i]),
    ensures
        split_semi(join_semi(names)) == names,
    decreases names.len(),
{
    assert forall|t: int| 0 <= t < names[0].len() implies #[trigger] names[0][t] != 59 by {
        assert(crate::bytes::is_name_byte(names[0][t]));
    }
    if names.len() == 1 {
        let e = Seq::<u8>::empty();
        lemma_split_prefix(names[0], e);
        assert(names[0] + e =~= names[0]);
        assert(split_semi(e) == seq![Seq::<u8>::empty()]);
        assert(names[0] + split_semi(e)[0] =~= names[0]);
        assert(split_semi(names[0]) =~= seq![names[0]] + split_semi(e).drop_first());
        assert(split_semi(join_semi(names)) =~= names);
    } else {
        assert forall|i: int| 0 <= i < names.drop_first().len() implies wf_name(
            #[trigger] names.drop_first()[i],
        ) by {
            assert(names.drop_first()[i] == names[i + 1]);
        }
        lemma_split_join(names.drop_first());
        let w = seq![59u8] + join_semi(names.drop_first());
        lemma_split_prefix(names[0], w);
        assert(join_semi(names) =~= names[0] + w);
        assert(w[0] == 59);
        assert(w.drop_first() =~= join_semi(names.drop_first()));
        assert(split_semi(w) == seq![Seq::<u8>::empty()] + split_semi(w.drop_first()));
        assert(split_semi(w)[0] =~= Seq::<u8>::empty());
        assert(names[0] + split_semi(w)[0] =~= names[0]);
        assert(split_semi(w).drop_first() =~= split_semi(join_semi(names.drop_first())));
        assert(split_semi(join_semi(names)) =~= seq![names[0]] + names.drop_first());
        assert(seq![names[0]] + names.drop_first() =~= names);
    }
}

// ---------------------------------------------------------------------------
// Length of sorting
// ---------------------------------------------------------------------------

proof fn lemma_insert_len(x: Seq<u8>, s: Seq<Seq<u8>>)
    ensures
        insert_name(x, s).len() == s.len() + 1,
    decreases s.len(),
{
    if s.len() != 0 && !crate::bytes::lex_le(x, s[0]) {
        lemma_insert_len(x, s.drop_first());
    }
}

/// Sorting keeps the number of names.
pub proof fn lemma_sort_len(s: Seq<Seq<u8>>)
    ensures
        sort_names(s).len() == s.len(),
    decreases s.len(),
{
    if s.len() != 0 {
        lemma_sort_len(s.drop_first());
        lemma_insert_len(s[0], sort_names(s.drop_first()));
    }
}


// ---------------------------------------------------------------------------
// Extraction inverts formatting
// ---------------------------------------------------------------------------

/// No byte of the sequence is an uppercase `S`, the first byte of the
/// `SignedHeaders=` key.
spec fn no_cap_s(s: Seq<u8>) -> bool {
    forall|i: int| 0 <= i < s.len() ==> #[trigger] s[i] != 83
}

proof fn lemma_no_cap_s_concat(a: Seq<u8>, b: Seq<u8>)
    requires
        no_cap_s(a),
        no_cap_s(b),
    ensures
        no_cap_s(a + b),
{
    assert forall|i: int| 0 <= i < (a + b).len() implies #[trigger] (a + b)[i] != 83 by {
        if i < a.len() {
            assert((a + b)[i] == a[i]);
        } else {
            assert((a + b)[i] == b[i - a.len()]);
        }
    }
}

/// On a value shaped like the engine's output, the first occurrence of the
/// `SignedHeaders=` key is the one the engine wrote, whatever follows it.
#[verifier::rlimit(100)]
proof fn lemma_token_pos(mid: Seq<u8>, tailx: Seq<u8>)
    requires
        no_cap_s(mid),
    ensures
        ({
            let head = crate::consts::spec_algorithm_bytes() + crate::consts::spec_credential_sep();
            let pre = head + mid + seq![44u8, 32u8];
            let s = pre + crate::consts::spec_signed_headers_token() + tailx;
            find_token(s, 0) == pre.len() && pre.len() + 14 <= s.len()
        }),
{
    let head = crate::consts::spec_algorithm_bytes() + crate::consts::spec_credential_sep();
    let pre = head + mid + seq![44u8, 32u8];
    let tok = crate::consts::spec_signed_headers_token();
    let s = pre + tok + tailx;
    let p = pre.len() as int;
    assert(head.len() == 28);
    assert(tok[0] == 83 && tok[1] == 105);
    assert forall|j: int| 0 <= j < p implies !token_at(s, j) by {
        if token_at(s, j) {
            assert(s.subrange(j, j + 14)[0] == s[j]);
            assert(s.subrange(j, j + 14)[1] == s[j + 1]);
            assert(s[j] == 83 && s[j + 1] == 105);
            assert(s[j] == pre[j]);
            if j < 28 {
                assert(pre[j] == head[j]);
                assert(j == 2 || j == 10);
                assert(s[j + 1] == head[j + 1]);
                assert(false);
            } else if j < 28 + mid.len() {
                assert(pre[j] == mid[j - 28]);
                assert(false);
            } else {
                assert(pre[j] == 44 || pre[j] == 32);
                assert(false);
            }
        }
    }
    assert(s.subrange(p, p + 14) =~= tok);
    assert(s[p - 1] == 32);
    assert(token_at(s, p));
    lemma_find_token_skip(s, 0, p);
    assert(find_token(s, p) == p);
}

/// On a value shaped like the engine's output, the signed-header list runs
/// from just after the key to the comma that opens the signature component.
proof fn lemma_value_end(pre0: Seq<u8>, jj: Seq<u8>, rest: Seq<u8>)
    requires
        forall|t: int| 0 <= t < jj.len() ==> !crate::authparse::is_sep(#[trigger] jj[t]),
    ensures
        ({
            let s = pre0 + jj + seq![44u8] + rest;
            find_sep(s, pre0.len() as int) == pre0.len() + jj.len() && s.subrange(
                pre0.len() as int,
                pre0.len() + jj.len() as int,
            ) == jj
        }),
{
    let s = pre0 + jj + seq![44u8] + rest;
    let a = pre0.len() as int;
    let vend = a + jj.len() as int;
    assert forall|t: int| a <= t < vend implies !crate::authparse::is_sep(s[t]) by {
        assert(s[t] == jj[t - a]);
    }
    assert(s[vend] == 44);
    lemma_find_sep_skip(s, a, vend);
    assert(find_sep(s, vend) == vend);
    assert(s.subrange(a, vend) =~= jj);
}

/// Header-list extraction inverts the engine's own formatting: the
/// Authorization value built over a list of well-formed lowercase names
/// parses back to exactly that list, whatever the signature bytes are.
#[verifier::rlimit(100)]
pub proof fn lemma_extract_of_formatted(
    method: Seq<u8>,
    endpoint: Seq<u8>,
    ps: Seq<(Seq<u8>, Seq<u8>)>,
    body: Seq<u8>,
    region: Seq<u8>,
    service: Seq<u8>,
    ts: Timestamp,
    akid: Seq<u8>,
    secret: Seq<u8>,
)
    requires
        wf_cred_token(akid),
        wf_cred_token(region),
        wf_cred_token(service),
        ts_valid(ts),
        names_of(ps).len() > 0,
        forall|i: int| 0 <= i < names_of(ps).len() ==> wf_name(#[trigger] names_of(ps)[i]),
    ensures
        extract_spec(auth_value_spec(method, endpoint, ps, body, region, service, ts, akid, secret))
            == Ok::<Seq<Seq<u8>>, SigError>(names_of(ps)),
{
    let s = auth_value_spec(method, endpoint, ps, body, region, service, ts, akid, secret);
    let names = names_of(ps);
    let jj = join_semi(names);
    let scope = scope_spec(ts, region, service);
    let head = crate::consts::spec_algorithm_bytes() + crate::consts::spec_credential_sep();
    let mid = akid + seq![47u8] + scope;
    let pre = head + mid + seq![44u8, 32u8];
    let p = pre.len() as int;
    let sig = crate::engine::signature_hex_spec(method, endpoint, ps, body, region, service, ts, secret);
    let tok = crate::consts::spec_signed_headers_token();
    let tail = jj + crate::consts::spec_signature_sep() + sig;

    // No uppercase `S` anywhere in the credential part.
    crate::timestamp::lemma_date8_digits(ts);
    assert(no_cap_s(scope)) by {
        lemma_no_cap_s_concat(date8_spec(ts), seq![47u8]);
        lemma_no_cap_s_concat(date8_spec(ts) + seq![47u8], region);
        lemma_no_cap_s_concat(date8_spec(ts) + seq![47u8] + region, seq![47u8]);
        lemma_no_cap_s_concat(date8_spec(ts) + seq![47u8] + region + seq![47u8], service);
        lemma_no_cap_s_concat(
            date8_spec(ts) + seq![47u8] + region + seq![47u8] + service,
            seq![47u8],
        );
        lemma_no_cap_s_concat(
            date8_spec(ts) + seq![47u8] + region + seq![47u8] + service + seq![47u8],
            crate::consts::spec_aws4_request_bytes(),
        );
        assert(scope =~= date8_spec(ts) + seq![47u8] + region + seq![47u8] + service + seq![47u8]
            + crate::consts::spec_aws4_request_bytes());
    }
    assert(no_cap_s(mid)) by {
        lemma_no_cap_s_concat(akid, seq![47u8]);
        lemma_no_cap_s_concat(akid + seq![47u8], scope);
        assert(mid =~= (akid + seq![47u8]) + scope);
    }

    // The key is found exactly where the engine wrote it.
    assert(s =~= pre + tok + tail);
    lemma_token_pos(mid, tail);
    assert(find_token(s, 0) == p);
    assert(p < s.len());

    // The value is exactly the joined list.
    lemma_join_bytes(names);
    assert forall|t: int| 0 <= t < jj.len() implies !crate::authparse::is_sep(#[trigger] jj[t]) by {
        assert(crate::bytes::is_name_byte(jj[t]) || jj[t] == 59);
    }
    let sigrest = crate::consts::spec_signature_sep().drop_first() + sig;
    assert(s =~= (pre + tok) + jj + seq![44u8] + sigrest) by {
        assert(crate::consts::spec_signature_sep() =~= seq![44u8]
            + crate::consts::spec_signature_sep().drop_first());
    }
    lemma_value_end(pre + tok, jj, sigrest);
    assert(find_sep(s, p + 14) == p + 14 + jj.len());
    assert(s.subrange(p + 14, find_sep(s, p + 14)) == jj);

    // Splitting gives back the names, none of them empty, all lowercase.
    lemma_split_join(names);
    let parts = split_semi(jj);
    assert(parts == names);
    assert(!(exists|i: int| 0 <= i < parts.len() && #[trigger] parts[i].len() == 0)) by {
        if exists|i: int| 0 <= i < parts.len() && #[trigger] parts[i].len() == 0 {
            let i = choose|i: int| 0 <= i < parts.len() && #[trigger] parts[i].len() == 0;
            assert(wf_name(names[i]));
        }
    }
    assert(Seq::new(parts.len(), |i: int| lower_seq(parts[i])) =~~= names) by {
        assert forall|i: int| 0 <= i < names.len() implies lower_seq(names[i]) == names[i] by {
            assert forall|t: int| 0 <= t < names[i].len() implies !(65 <= #[trigger] names[i][t]
                && names[i][t] <= 90) by {
                assert(crate::bytes::is_name_byte(names[i][t]));
            }
            crate::bytes::lemma_lower_idempotent(names[i]);
        }
    }
}


// ---------------------------------------------------------------------------
// The round trip: verifying what the signer produced
// ---------------------------------------------------------------------------

/// The canonical header names the engine itself uses are lowercase,
/// well-formed, and pairwise distinct.
proof fn lemma_const_name_facts()
    ensures
        lower_seq(crate::consts::spec_host_name()) == crate::consts::spec_host_name(),
        lower_seq(crate::consts::spec_x_amz_date_name()) == crate::consts::spec_x_amz_date_name(),
        lower_seq(crate::consts::spec_authorization_name())
            == crate::consts::spec_authorization_name(),
        wf_name(crate::consts::spec_host_name()),
        wf_name(crate::consts::spec_x_amz_date_name()),
        crate::consts::spec_host_name() != crate::consts::spec_x_amz_date_name(),
        crate::consts::spec_host_name() != crate::consts::spec_authorization_name(),
        crate::consts::spec_x_amz_date_name() != crate::consts::spec_authorization_name(),
{
    let h = crate::consts::spec_host_name();
    let x = crate::consts::spec_x_amz_date_name();
    let a = crate::consts::spec_authorization_name();
    assert(h.len() == 4 && x.len() == 10 && a.len() == 13);
    assert(lower_seq(h) =~= h);
    assert(lower_seq(x) =~= x);
    assert(lower_seq(a) =~= a);
    assert(forall|i: int| 0 <= i < 4 ==> crate::bytes::is_name_byte(#[trigger] h[i]));
    assert(forall|i: int| 0 <= i < 10 ==> crate::bytes::is_name_byte(#[trigger] x[i]));
}

/// Lowercasing is idempotent on sequences.
proof fn lemma_lower_lower(s: Seq<u8>)
    ensures
        lower_seq(lower_seq(s)) == lower_seq(s),
{
    assert(lower_seq(lower_seq(s)) =~= lower_seq(s));
}

/// The header map a verifier receives for a signed request: the caller's
/// headers, then `host`, `x-amz-date` and `authorization` as the signer
/// produced them.
pub open spec fn transmitted_headers(
    extras: Seq<(Seq<u8>, Seq<u8>)>,
    hostv: Seq<u8>,
    stamp: Seq<u8>,
    auth: Seq<u8>,
) -> Seq<(Seq<u8>, Seq<u8>)> {
    extras + seq![
        (crate::consts::spec_host_name(), hostv),
        (crate::consts::spec_x_amz_date_name(), stamp),
        (crate::consts::spec_authorization_name(), auth),
    ]
}

/// One unfolding step of `lookup_spec`.
proof fn lemma_lookup_step(m: Seq<(Seq<u8>, Seq<u8>)>, n: Seq<u8>)
    requires
        m.len() > 0,
    ensures
        lookup_spec(m, n) == if lower_seq(m[0].0) == n {
            Some(m[0].1)
        } else {
            lookup_spec(m.drop_first(), n)
        },
{
}

/// For every name the signer signed, the transmitted map answers a lookup
/// exactly as the signer's own canonical map does, and with a hit.
proof fn lemma_lookup_transmitted(
    extras: Seq<(Seq<u8>, Seq<u8>)>,
    hostv: Seq<u8>,
    stamp: Seq<u8>,
    auth: Seq<u8>,
    n: Seq<u8>,
)
    requires
        extras_wf(extras),
        names_of(signing_pairs(extras, hostv, stamp)).contains(n),
    ensures
        lookup_spec(transmitted_headers(extras, hostv, stamp, auth), n) == lookup_spec(
            signing_pairs(extras, hostv, stamp),
            n,
        ),
        lookup_spec(signing_pairs(extras, hostv, stamp), n) is Some,
{
    lemma_const_name_facts();
    let hn = crate::consts::spec_host_name();
    let xn = crate::consts::spec_x_amz_date_name();
    let an = crate::consts::spec_authorization_name();
    let m = signing_pairs(extras, hostv, stamp);
    let hh = transmitted_headers(extras, hostv, stamp, auth);
    let le = Seq::new(extras.len(), |i: int| (lower_seq(extras[i].0), extras[i].1));
    let tail2 = seq![(hn, hostv), (xn, stamp)];
    let tail3 = seq![(hn, hostv), (xn, stamp), (an, auth)];
    assert(m =~= le + tail2);
    assert(hh =~= extras + tail3);
    let k = choose|k: int| 0 <= k < names_of(m).len() && names_of(m)[k] == n;
    assert(m[k].0 == n);
    if k < extras.len() {
        assert(n == lower_seq(extras[k].0));
        assert(lower_name_at(extras, k) == n);
        assert forall|i: int| 0 <= i < k implies lower_seq(#[trigger] extras[i].0) != n by {
            assert(lower_name_at(extras, i) != lower_name_at(extras, k));
        }
        lemma_lookup_at(extras, k, n);
        lemma_lookup_prefix_hit(extras, tail3, n, extras[k].1);
        assert(le[k].0 == lower_seq(extras[k].0));
        lemma_lower_lower(extras[k].0);
        assert forall|i: int| 0 <= i < k implies lower_seq(#[trigger] le[i].0) != n by {
            lemma_lower_lower(extras[i].0);
            assert(lower_name_at(extras, i) != lower_name_at(extras, k));
        }
        lemma_lookup_at(le, k, n);
        lemma_lookup_prefix_hit(le, tail2, n, extras[k].1);
        assert(le[k].1 == extras[k].1);
    } else {
        assert(n == hn || n == xn);
        assert forall|i: int| 0 <= i < extras.len() implies lower_seq(#[trigger] extras[i].0)
            != n by {
            assert(extra_ok(extras, i));
            assert(lower_name_at(extras, i) != hn && lower_name_at(extras, i) != xn);
        }
        assert forall|i: int| 0 <= i < le.len() implies lower_seq(#[trigger] le[i].0) != n by {
            lemma_lower_lower(extras[i].0);
            assert(extra_ok(extras, i));
            assert(lower_name_at(extras, i) != hn && lower_name_at(extras, i) != xn);
        }
        lemma_lookup_concat_miss(extras, tail3, n);
        lemma_lookup_concat_miss(le, tail2, n);
        assert(tail3.drop_first() =~= seq![(xn, stamp), (an, auth)]);
        assert(tail2.drop_first() =~= seq![(xn, stamp)]);
        lemma_lookup_step(tail3, n);
        lemma_lookup_step(tail2, n);
        if n == hn {
            assert(lookup_spec(tail3, n) == Some(hostv));
            assert(lookup_spec(tail2, n) == Some(hostv));
        } else {
            lemma_lookup_step(tail3.drop_first(), n);
            lemma_lookup_step(tail2.drop_first(), n);
            assert(tail3.drop_first()[0] == (xn, stamp));
            assert(tail2.drop_first()[0] == (xn, stamp));
            assert(lookup_spec(tail3, n) == Some(stamp));
            assert(lookup_spec(tail2, n) == Some(stamp));
        }
    }
}

/// The round trip: a request signed by the engine and transmitted unchanged
/// is accepted by the verifier under the same identity, region and service.
#[verifier::rlimit(100)]
pub proof fn lemma_sign_verify_round_trip(
    method: Seq<u8>,
    endpoint: Seq<u8>,
    extras: Seq<(Seq<u8>, Seq<u8>)>,
    body: Seq<u8>,
    region: Seq<u8>,
    service: Seq<u8>,
    ts: Timestamp,
    akid: Seq<u8>,
    secret: Seq<u8>,
)
    requires
        crate::signer::sign_inputs_wf(method, endpoint, extras, region, service, akid, secret),
        ts_valid(ts),
    ensures
        ({
            let r = sign_spec(method, endpoint, extras, body, region, service, ts, akid, secret);
            match r {
                Ok(t) => verify_spec(
                    method,
                    endpoint,
                    transmitted_headers(extras, t.2, t.1, t.0),
                    body,
                    region,
                    service,
                    akid,
                    secret,
                ) == Ok::<(), SigError>(()),
                Err(_) => false,
            }
        }),
{
    lemma_const_name_facts();
    let hn = crate::consts::spec_host_name();
    let xn = crate::consts::spec_x_amz_date_name();
    let an = crate::consts::spec_authorization_name();
    let hostv = endpoint_host(endpoint);
    let stamp = render_ts_spec(ts);
    let m = signing_pairs(extras, hostv, stamp);
    let names = sort_names(names_of(m));
    let ps = subset_spec(m, names);
    let auth = auth_value_spec(method, endpoint, ps, body, region, service, ts, akid, secret);
    let hh = transmitted_headers(extras, hostv, stamp, auth);
    assert(sign_spec(method, endpoint, extras, body, region, service, ts, akid, secret) == Ok::<
        (Seq<u8>, Seq<u8>, Seq<u8>),
        SigError,
    >((auth, stamp, hostv)));

    // The transmitted map yields the Authorization value.
    let tail3 = seq![(hn, hostv), (xn, stamp), (an, auth)];
    assert(hh =~= extras + tail3);
    assert forall|i: int| 0 <= i < extras.len() implies lower_seq(#[trigger] extras[i].0)
        != an by {
        assert(extra_ok(extras, i));
        assert(lower_name_at(extras, i) != an);
    }
    lemma_lookup_concat_miss(extras, tail3, an);
    lemma_lookup_step(tail3, an);
    lemma_lookup_step(tail3.drop_first(), an);
    lemma_lookup_step(tail3.drop_first().drop_first(), an);
    assert(tail3.drop_first()[0] == (xn, stamp));
    assert(tail3.drop_first().drop_first()[0] == (an, auth));
    assert(lookup_spec(tail3, an) == Some(auth));
    assert(lookup_spec(hh, an) == Some(auth));

    // The names the signer signed.
    lemma_sort_len(names_of(m));
    assert(names.len() == extras.len() + 2);
    assert forall|i: int| 0 <= i < names.len() implies wf_name(#[trigger] names[i]) by {
        assert(names.contains(names[i]));
        crate::bytes::lemma_sort_contains(names_of(m), names[i]);
        let k = choose|k: int| 0 <= k < names_of(m).len() && names_of(m)[k] == names[i];
        assert(m[k].0 == names[i]);
        if k < extras.len() {
            assert(extra_ok(extras, k));
            assert(wf_input_name(extras[k].0));
            assert(names[i] == lower_seq(extras[k].0));
        }
    }
    assert(names_of(ps) =~~= names);

    // The presented value parses back to exactly those names.
    lemma_extract_of_formatted(method, endpoint, ps, body, region, service, ts, akid, secret);
    assert(extract_spec(auth) == Ok::<Seq<Seq<u8>>, SigError>(names));

    // The minimum required names are among them.
    assert(names_of(m)[extras.len() as int] == hn);
    assert(names_of(m)[extras.len() + 1 as int] == xn);
    assert(names_of(m).contains(hn));
    assert(names_of(m).contains(xn));
    crate::bytes::lemma_sort_contains(names_of(m), hn);
    crate::bytes::lemma_sort_contains(names_of(m), xn);
    assert(names.contains(hn));
    assert(names.contains(xn));

    // Every claimed name is present, and looked up as the signer did.
    assert forall|i: int| 0 <= i < names.len() implies lookup_spec(hh, #[trigger] names[i])
        is Some && lookup_spec(hh, names[i]) == lookup_spec(m, names[i]) by {
        assert(names.contains(names[i]));
        crate::bytes::lemma_sort_contains(names_of(m), names[i]);
        lemma_lookup_transmitted(extras, hostv, stamp, auth, names[i]);
    }
    assert(!(exists|i: int|
        0 <= i < names.len() && lookup_spec(hh, #[trigger] names[i]) is None)) by {
        if exists|i: int| 0 <= i < names.len() && lookup_spec(hh, #[trigger] names[i]) is None {
            let i = choose|i: int|
                0 <= i < names.len() && lookup_spec(hh, #[trigger] names[i]) is None;
            assert(lookup_spec(hh, names[i]) is Some);
        }
    }

    // The presented timestamp reads back as the instant that was signed.
    crate::bytes::lemma_sort_contains(names_of(m), xn);
    lemma_lookup_transmitted(extras, hostv, stamp, auth, xn);
    let le = Seq::new(extras.len(), |i: int| (lower_seq(extras[i].0), extras[i].1));
    let tail2 = seq![(hn, hostv), (xn, stamp)];
    assert(m =~= le + tail2);
    assert forall|i: int| 0 <= i < le.len() implies lower_seq(#[trigger] le[i].0) != xn by {
        lemma_lower_lower(extras[i].0);
        assert(extra_ok(extras, i));
        assert(lower_name_at(extras, i) != xn);
    }
    lemma_lookup_concat_miss(le, tail2, xn);
    lemma_lookup_step(tail2, xn);
    lemma_lookup_step(tail2.drop_first(), xn);
    assert(tail2.drop_first()[0] == (xn, stamp));
    assert(lookup_spec(tail2, xn) == Some(stamp));
    assert(lookup_spec(m, xn) == Some(stamp));
    assert(lookup_spec(hh, xn) == Some(stamp));
    assert(lookup_val(hh, xn) == stamp);
    crate::timestamp::lemma_parse_render_round_trip(ts);
    assert(crate::timestamp::parse_ts_spec(lookup_val(hh, xn)) == Some(ts));

    // The verifier recomputes over exactly the signer's header subset.
    assert(subset_spec(hh, names) =~~= ps);

    // And so the recomputed value is the presented one.
    assert(verify_spec(method, endpoint, hh, body, region, service, akid, secret) == Ok::<
        (),
        SigError,
    >(()));
}


/// The signer declares its signed-header names in lexicographic order: the
/// list extracted from a produced Authorization value is sorted.
pub proof fn lemma_signed_names_sorted(
    method: Seq<u8>,
    endpoint: Seq<u8>,
    extras: Seq<(Seq<u8>, Seq<u8>)>,
    body: Seq<u8>,
    region: Seq<u8>,
    service: Seq<u8>,
    ts: Timestamp,
    akid: Seq<u8>,
    secret: Seq<u8>,
)
    requires
        crate::signer::sign_inputs_wf(method, endpoint, extras, region, service, akid, secret),
        ts_valid(ts),
    ensures
        ({
            let r = sign_spec(method, endpoint, extras, body, region, service, ts, akid, secret);
            match r {
                Ok(t) => match extract_spec(t.0) {
                    Ok(names) => crate::bytes::sorted_names(names),
                    Err(_) => false,
                },
                Err(_) => false,
            }
        }),
{
    lemma_const_name_facts();
    let hostv = endpoint_host(endpoint);
    let stamp = render_ts_spec(ts);
    let m = signing_pairs(extras, hostv, stamp);
    let names = sort_names(names_of(m));
    let ps = subset_spec(m, names);
    lemma_sort_len(names_of(m));
    assert forall|i: int| 0 <= i < names.len() implies wf_name(#[trigger] names[i]) by {
        assert(names.contains(names[i]));
        crate::bytes::lemma_sort_contains(names_of(m), names[i]);
        let k = choose|k: int| 0 <= k < names_of(m).len() && names_of(m)[k] == names[i];
        assert(m[k].0 == names[i]);
        if k < extras.len() {
            assert(extra_ok(extras, k));
            assert(wf_input_name(extras[k].0));
            assert(names[i] == lower_seq(extras[k].0));
        }
    }
    assert(names_of(ps) =~~= names);
    lemma_extract_of_formatted(method, endpoint, ps, body, region, service, ts, akid, secret);
    crate::bytes::lemma_sort_sorted(names_of(m));
}

} // verus!
