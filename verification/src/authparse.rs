use vstd::prelude::*;
use crate::bytes::{copy_range, lower_seq, push_all, to_lower, views};
use crate::consts::{signed_headers_token, spec_signed_headers_token};
use crate::errors::SigError;

verus! {

// ---------------------------------------------------------------------------
// Locating the SignedHeaders component
// ---------------------------------------------------------------------------

/// A field separator in the Authorization value: space or comma.
pub open spec fn is_sep(b: u8) -> bool {
    b == 32 || b == 44
}

/// The `SignedHeaders=` key starts at `i`: the fourteen key bytes stand
/// there, on a field boundary (the start, or just after a separator).
pub open spec fn token_at(s: Seq<u8>, i: int) -> bool {
    &&& 0 <= i
    &&& i + 14 <= s.len()
    &&& s.subrange(i, i + 14) == spec_signed_headers_token()
    &&& (i == 0 || is_sep(s[i - 1]))
}

/// The first position at or after `i` where the key starts, or the length.
pub open spec fn find_token(s: Seq<u8>, i: int) -> int
    decreases s.len() - i when 0 <= i <= s.len()
{
    if i >= s.len() {
        s.len() as int
    } else if token_at(s, i) {
        i
    } else {
        find_token(s, i + 1)
    }
}

pub proof fn lemma_find_token_bounds(s: Seq<u8>, i: int)
    requires
        0 <= i <= s.len(),
    ensures
        i <= find_token(s, i) <= s.len(),
        find_token(s, i) < s.len() ==> token_at(s, find_token(s, i)),
        forall|j: int| i <= j < find_token(s, i) ==> !token_at(s, j),
    decreases s.len() - i,
{
    if i < s.len() && !token_at(s, i) {
        lemma_find_token_bounds(s, i + 1);
    }
}

/// Where the scan starts before a region free of the key, the result is the
/// same as starting after that region.
pub proof fn lemma_find_token_skip(s: Seq<u8>, i: int, k: int)
    requires
        0 <= i <= k <= s.len(),
        forall|j: int| i <= j < k ==> !token_at(s, j),
    ensures
        find_token(s, i) == find_token(s, k),
    decreases k - i,
{
    if i < k {
        lemma_find_token_skip(s, i + 1, k);
    }
}

/// The first separator at or after `i`, or the length.
pub open spec fn find_sep(s: Seq<u8>, i: int) -> int
    decreases s.len() - i when 0 <= i <= s.len()
{
    if i >= s.len() {
        s.len() as int
    } else if is_sep(s[i]) {
        i
    } else {
        find_sep(s, i + 1)
    }
}

pub proof fn lemma_find_sep_bounds(s: Seq<u8>, i: int)
    requires
        0 <= i <= s.len(),
    ensures
        i <= find_sep(s, i) <= s.len(),
        forall|j: int| i <= j < find_sep(s, i) ==> !is_sep(s[j]),
    decreases s.len() - i,
{
    if i < s.len() && !is_sep(s[i]) {
        lemma_find_sep_bounds(s, i + 1);
    }
}

pub proof fn lemma_find_sep_skip(s: Seq<u8>, i: int, k: int)
    requires
        0 <= i <= k <= s.len(),
        forall|j: int| i <= j < k ==> !is_sep(s[j]),
    ensures
        find_sep(s, i) == find_sep(s, k),
    decreases k - i,
{
    if i < k {
        lemma_find_sep_skip(s, i + 1, k);
    }
}

// ---------------------------------------------------------------------------
// Splitting on semicolons
// ---------------------------------------------------------------------------

/// The segments of `v` separated by `;`. Always at least one segment; an
/// empty input is one empty segment.
pub open spec fn split_semi(v: Seq<u8>) -> Seq<Seq<u8>>
    decreases v.len(),
{
    if v.len() == 0 {
        seq![Seq::<u8>::empty()]
    } else {
        let rest = split_semi(v.drop_first());
        if v[0] == 59 {
            seq![Seq::<u8>::empty()] + rest
        } else {
            seq![seq![v[0]] + rest[0]] + rest.drop_first()
        }
    }
}

pub proof fn lemma_split_semi_nonempty(v: Seq<u8>)
    ensures
        split_semi(v).len() >= 1,
    decreases v.len(),
{
    if v.len() != 0 {
        lemma_split_semi_nonempty(v.drop_first());
    }
}

// ---------------------------------------------------------------------------
// Executable extraction
// ---------------------------------------------------------------------------

#[verifier::loop_isolation(false)]
fn token_at_exec(s: &Vec<u8>, i: usize) -> (r: bool)
    requires
        i <= s@.len(),
    ensures
        r == token_at(s@, i as int),
{
    let n = s.len();
    if n - i < 14 {
        return false;
    }
    if !(i == 0 || s[i - 1] == 32 || s[i - 1] == 44) {
        return false;
    }
    let tok = signed_headers_token();
    let mut j: usize = 0;
    while j < 14
        invariant
            j <= 14,
            i + 14 <= s@.len(),
            tok@ == spec_signed_headers_token(),
            i == 0 || is_sep(s@[i - 1]),
            forall|k: int| 0 <= k < j ==> s@[i + k] == spec_signed_headers_token()[k],
        decreases 14 - j,
    {
        if s[i + j] != tok[j] {
            assert(s@.subrange(i as int, i + 14)[j as int] != spec_signed_headers_token()[j as int]);
            return false;
        }
        j += 1;
    }
    proof {
        assert(s@.subrange(i as int, i + 14) =~= spec_signed_headers_token());
    }
    true
}

#[verifier::loop_isolation(false)]
fn find_token_exec(s: &Vec<u8>) -> (r: usize)
    ensures
        r == find_token(s@, 0),
{
    let mut i: usize = 0;
    while i < s.len()
        invariant
            i <= s@.len(),
            forall|j: int| 0 <= j < i ==> !token_at(s@, j),
        decreases s@.len() - i,
    {
        if token_at_exec(s, i) {
            proof {
                lemma_find_token_skip(s@, 0, i as int);
            }
            return i;
        }
        i += 1;
    }
    proof {
        lemma_find_token_skip(s@, 0, s@.len() as int);
    }
    i
}

#[verifier::loop_isolation(false)]
fn find_sep_exec(s: &Vec<u8>, from: usize) -> (r: usize)
    requires
        from <= s@.len(),
    ensures
        r == find_sep(s@, from as int),
{
    let mut i: usize = from;
    while i < s.len()
        invariant
            from <= i <= s@.len(),
            forall|j: int| from <= j < i ==> !is_sep(s@[j]),
        decreases s@.len() - i,
    {
        let b = s[i];
        if b == 32 || b == 44 {
            proof {
                lemma_find_sep_skip(s@, from as int, i as int);
            }
            return i;
        }
        i += 1;
    }
    proof {
        lemma_find_sep_skip(s@, from as int, s@.len() as int);
    }
    i
}

/// Executable counterpart of `split_semi`, over the bytes from `from` on.
fn split_semi_exec(v: &Vec<u8>, from: usize) -> (r: Vec<Vec<u8>>)
    requires
        from <= v@.len(),
    ensures
        views(r@) == split_semi(v@.skip(from as int)),
        r@.len() >= 1,
    decreases v@.len() - from,
{
    if from == v.len() {
        let mut r: Vec<Vec<u8>> = Vec::new();
        r.push(Vec::new());
        proof {
            assert(v@.skip(from as int) =~= Seq::<u8>::empty());
            assert(views(r@) =~~= split_semi(v@.skip(from as int)));
        }
        return r;
    }
    let mut rest = split_semi_exec(v, from + 1);
    proof {
        assert(v@.skip(from as int).drop_first() =~= v@.skip(from + 1));
        assert(v@.skip(from as int)[0] == v@[from as int]);
    }
    let b = v[from];
    if b == 59 {
        let mut r: Vec<Vec<u8>> = Vec::new();
        r.push(Vec::new());
        r.append(&mut rest);
        proof {
            assert(views(r@) =~~= split_semi(v@.skip(from as int)));
        }
        r
    } else {
        let ghost restv = views(rest@);
        let head = rest.remove(0);
        let mut nf: Vec<u8> = Vec::new();
        nf.push(b);
        push_all(&mut nf, &head);
        let mut r: Vec<Vec<u8>> = Vec::new();
        r.push(nf);
        r.append(&mut rest);
        proof {
            assert(nf@ =~= seq![v@[from as int]] + restv[0]);
            assert(views(r@) =~~= seq![nf@] + restv.drop_first());
            assert(views(r@) =~~= split_semi(v@.skip(from as int)));
        }
        r
    }
}

// ---------------------------------------------------------------------------
// The extraction contract
// ---------------------------------------------------------------------------

/// What extraction returns on a presented Authorization value: the
/// lowercased signed-header names, in declared order, exactly when the
/// `SignedHeaders=` key is present and every name between the semicolons is
/// non-empty; `MissingSignedHeaders` when the key is absent; and
/// `EmptySignedHeaders` when the list is empty or holds an empty name.
pub open spec fn extract_spec(s: Seq<u8>) -> Result<Seq<Seq<u8>>, SigError> {
    let p = find_token(s, 0);
    if p == s.len() {
        Err(SigError::MissingSignedHeaders)
    } else {
        let v = s.subrange(p + 14, find_sep(s, p + 14));
        let parts = split_semi(v);
        if exists|i: int| 0 <= i < parts.len() && #[trigger] parts[i].len() == 0 {
            Err(SigError::EmptySignedHeaders)
        } else {
            Ok(Seq::new(parts.len(), |i: int| lower_seq(parts[i])))
        }
    }
}

/// Relates an executable extraction result to `extract_spec`.
pub open spec fn matches_extract_spec(
    r: Result<Vec<Vec<u8>>, SigError>,
    s: Result<Seq<Seq<u8>>, SigError>,
) -> bool {
    match (r, s) {
        (Ok(ns), Ok(sns)) => views(ns@) == sns,
        (Err(a), Err(b)) => a == b,
        _ => false,
    }
}

/// Parses the untrusted Authorization value and recovers the list of header
/// names the caller claims to have signed, lowercased, in declared order.
/// Never panics: malformed input yields a typed error.
#[verifier::loop_isolation(false)]
pub fn extract_signed_headers(auth: &Vec<u8>) -> (r: Result<Vec<Vec<u8>>, SigError>)
    ensures
        matches_extract_spec(r, extract_spec(auth@)),
{
    let p = find_token_exec(auth);
    proof {
        lemma_find_token_bounds(auth@, 0);
    }
    if p == auth.len() {
        return Err(SigError::MissingSignedHeaders);
    }
    let vstart = p + 14;
    let vend = find_sep_exec(auth, vstart);
    proof {
        lemma_find_sep_bounds(auth@, vstart as int);
    }
    let value = copy_range(auth, vstart, vend);
    let parts = split_semi_exec(&value, 0);
    proof {
        assert(value@.skip(0) =~= value@);
    }
    let ghost sparts = split_semi(value@);
    let mut names: Vec<Vec<u8>> = Vec::new();
    let mut i: usize = 0;
    while i < parts.len()
        invariant
            i <= parts@.len(),
            views(parts@) == sparts,
            names@.len() == i,
            forall|k: int| 0 <= k < i ==> #[trigger] sparts[k].len() != 0,
            forall|k: int| 0 <= k < i ==> #[trigger] names@[k]@ == lower_seq(sparts[k]),
        decreases parts@.len() - i,
    {
        proof {
            assert(views(parts@)[i as int] == parts@[i as int]@);
        }
        if parts[i].len() == 0 {
            assert(sparts[i as int].len() == 0);
            return Err(SigError::EmptySignedHeaders);
        }
        names.push(to_lower(&parts[i]));
        i += 1;
    }
    proof {
        assert(!(exists|k: int| 0 <= k < sparts.len() && #[trigger] sparts[k].len() == 0));
        assert(views(names@) =~~= Seq::new(sparts.len(), |k: int| lower_seq(sparts[k])));
    }
    Ok(names)
}

} // verus!
