use vstd::prelude::*;

verus! {

// ---------------------------------------------------------------------------
// Byte classification
// ---------------------------------------------------------------------------

/// ASCII lowercasing of a single byte.
pub open spec fn lower_byte(b: u8) -> u8 {
    if 65 <= b && b <= 90 {
        (b + 32) as u8
    } else {
        b
    }
}

/// ASCII lowercasing of a byte sequence.
pub open spec fn lower_seq(s: Seq<u8>) -> Seq<u8> {
    Seq::new(s.len(), |i: int| lower_byte(s[i]))
}

/// A byte that may stand in a canonical (lowercased) header name.
pub open spec fn is_name_byte(b: u8) -> bool {
    (97 <= b && b <= 122) || (48 <= b && b <= 57) || b == 45 || b == 95 || b == 46
}

/// A canonical header name: non-empty, lowercase letters, digits, `-`, `_`, `.`.
pub open spec fn wf_name(s: Seq<u8>) -> bool {
    s.len() > 0 && forall|i: int| 0 <= i < s.len() ==> is_name_byte(#[trigger] s[i])
}

/// A header name as supplied by a caller: its lowercased form is well-formed.
pub open spec fn wf_input_name(s: Seq<u8>) -> bool {
    wf_name(lower_seq(s))
}

/// A printable byte without uppercase letters, as used in credential tokens
/// (access key id, region, service): these may never contain a space, a
/// comma, or an uppercase letter, so that the Authorization header they are
/// embedded in keeps its comma/space-delimited structure.
pub open spec fn is_cred_byte(b: u8) -> bool {
    33 <= b && b <= 126 && !(65 <= b && b <= 90) && b != 44
}

/// A credential token: non-empty and made of credential bytes.
pub open spec fn wf_cred_token(s: Seq<u8>) -> bool {
    s.len() > 0 && forall|i: int| 0 <= i < s.len() ==> is_cred_byte(#[trigger] s[i])
}

/// A header value byte: printable ASCII or space (no control bytes, so a
/// value cannot forge extra lines in the canonical request).
pub open spec fn is_value_byte(b: u8) -> bool {
    32 <= b && b <= 126
}

/// A well-formed header value.
pub open spec fn wf_value(s: Seq<u8>) -> bool {
    forall|i: int| 0 <= i < s.len() ==> is_value_byte(#[trigger] s[i])
}

// ---------------------------------------------------------------------------
// Building and copying byte vectors
// ---------------------------------------------------------------------------

/// Appends all of `src` to `dst`.
pub fn push_all(dst: &mut Vec<u8>, src: &Vec<u8>)
    ensures
        final(dst)@ == old(dst)@ + src@,
{
    let ghost dst0 = dst@;
    let mut i: usize = 0;
    while i < src.len()
        invariant
            i <= src.len(),
            dst@ == dst0 + src@.take(i as int),
        decreases src.len() - i,
    {
        dst.push(src[i]);
        proof {
            assert(src@.take(i + 1) =~= src@.take(i as int).push(src@[i as int]));
        }
        i += 1;
    }
    proof {
        assert(src@.take(src@.len() as int) =~= src@);
    }
}

/// Returns a fresh vector holding the same bytes as `src`.
pub fn copy_bytes(src: &Vec<u8>) -> (r: Vec<u8>)
    ensures
        r@ == src@,
{
    let mut r: Vec<u8> = Vec::new();
    push_all(&mut r, src);
    r
}

/// ASCII-lowercases a byte vector.
pub fn to_lower(src: &Vec<u8>) -> (r: Vec<u8>)
    ensures
        r@ == lower_seq(src@),
{
    let mut r: Vec<u8> = Vec::new();
    let mut i: usize = 0;
    while i < src.len()
        invariant
            i <= src.len(),
            r@ == lower_seq(src@).take(i as int),
        decreases src.len() - i,
    {
        let b = src[i];
        if 65 <= b && b <= 90 {
            r.push(b + 32);
        } else {
            r.push(b);
        }
        proof {
            assert(lower_seq(src@).take(i + 1) =~= lower_seq(src@).take(i as int).push(
                lower_byte(src@[i as int]),
            ));
        }
        i += 1;
    }
    proof {
        assert(lower_seq(src@).take(src@.len() as int) =~= lower_seq(src@));
    }
    r
}

/// Lowercasing an already-lowercase sequence changes nothing.
pub proof fn lemma_lower_idempotent(s: Seq<u8>)
    requires
        forall|i: int| 0 <= i < s.len() ==> !(65 <= #[trigger] s[i] && s[i] <= 90),
    ensures
        lower_seq(s) == s,
{
    assert(lower_seq(s) =~= s);
}

// ---------------------------------------------------------------------------
// Constant-time comparison
// ---------------------------------------------------------------------------

/// Compares two byte vectors for equality without an early exit on the first
/// differing byte: the accumulated difference is folded over every position,
/// so the running time depends only on the lengths, never on the contents.
pub fn ct_eq(a: &Vec<u8>, b: &Vec<u8>) -> (r: bool)
    ensures
        r == (a@ == b@),
{
    if a.len() != b.len() {
        return false;
    }
    let mut diff: u8 = 0;
    let mut i: usize = 0;
    while i < a.len()
        invariant
            i <= a.len(),
            a@.len() == b@.len(),
            (diff == 0) <==> (forall|j: int| 0 <= j < i ==> a@[j] == b@[j]),
        decreases a.len() - i,
    {
        let x = a[i];
        let y = b[i];
        let d = x ^ y;
        proof {
            assert((x ^ y) == 0 <==> x == y) by (bit_vector);
            assert((diff | d) == 0 <==> (diff == 0 && d == 0)) by (bit_vector);
        }
        diff = diff | d;
        i += 1;
    }
    if diff == 0 {
        proof {
            assert(a@ =~= b@);
        }
        true
    } else {
        false
    }
}

// ---------------------------------------------------------------------------
// Trimming
// ---------------------------------------------------------------------------

/// Index of the first non-space byte at or after `i`.
pub open spec fn skip_spaces(s: Seq<u8>, i: int) -> int
    decreases s.len() - i when 0 <= i <= s.len()
{
    if i < s.len() && s[i] == 32 {
        skip_spaces(s, i + 1)
    } else {
        i
    }
}

/// Index just after the last non-space byte at or before `j - 1`.
pub open spec fn rskip_spaces(s: Seq<u8>, j: int) -> int
    decreases j when 0 <= j <= s.len()
{
    if j > 0 && s[j - 1] == 32 {
        rskip_spaces(s, j - 1)
    } else {
        j
    }
}

/// The sequence with leading and trailing spaces removed.
pub open spec fn trim_spec(s: Seq<u8>) -> Seq<u8> {
    let a = skip_spaces(s, 0);
    if a == s.len() {
        Seq::empty()
    } else {
        s.subrange(a, rskip_spaces(s, s.len() as int))
    }
}

proof fn lemma_skip_spaces_bounds(s: Seq<u8>, i: int)
    requires
        0 <= i <= s.len(),
    ensures
        i <= skip_spaces(s, i) <= s.len(),
        skip_spaces(s, i) < s.len() ==> s[skip_spaces(s, i)] != 32,
    decreases s.len() - i,
{
    if i < s.len() && s[i] == 32 {
        lemma_skip_spaces_bounds(s, i + 1);
    }
}

proof fn lemma_rskip_spaces_bounds(s: Seq<u8>, j: int, a: int)
    requires
        0 <= a < j <= s.len(),
        s[a] != 32,
    ensures
        a < rskip_spaces(s, j) <= j,
        s[rskip_spaces(s, j) - 1] != 32,
    decreases j,
{
    if j > 0 && s[j - 1] == 32 {
        if j - 1 == a {
        } else {
            lemma_rskip_spaces_bounds(s, j - 1, a);
        }
    }
}

/// Removes leading and trailing spaces.
pub fn trim(src: &Vec<u8>) -> (r: Vec<u8>)
    ensures
        r@ == trim_spec(src@),
{
    let mut a: usize = 0;
    while a < src.len() && src[a] == 32
        invariant
            0 <= a <= src.len(),
            skip_spaces(src@, 0) == skip_spaces(src@, a as int),
        decreases src.len() - a,
    {
        a += 1;
    }
    assert(skip_spaces(src@, a as int) == a);
    if a == src.len() {
        let r: Vec<u8> = Vec::new();
        assert(r@ =~= trim_spec(src@));
        return r;
    }
    proof {
        lemma_rskip_spaces_bounds(src@, src@.len() as int, a as int);
    }
    let mut b: usize = src.len();
    while b > 0 && src[b - 1] == 32
        invariant
            0 <= b <= src.len(),
            rskip_spaces(src@, src@.len() as int) == rskip_spaces(src@, b as int),
        decreases b,
    {
        b -= 1;
    }
    assert(rskip_spaces(src@, b as int) == b);
    assert(a < b);
    let mut r: Vec<u8> = Vec::new();
    let mut i: usize = a;
    while i < b
        invariant
            a <= i <= b <= src@.len(),
            r@ == src@.subrange(a as int, i as int),
        decreases b - i,
    {
        r.push(src[i]);
        proof {
            assert(src@.subrange(a as int, i + 1) =~= src@.subrange(a as int, i as int).push(
                src@[i as int],
            ));
        }
        i += 1;
    }
    assert(r@ =~= trim_spec(src@));
    r
}

// ---------------------------------------------------------------------------
// Views of nested vectors
// ---------------------------------------------------------------------------

/// The mathematical view of a sequence of byte vectors.
pub open spec fn views(s: Seq<Vec<u8>>) -> Seq<Seq<u8>> {
    Seq::new(s.len(), |i: int| s[i]@)
}

/// The mathematical view of a sequence of (name, value) byte-vector pairs.
pub open spec fn pair_views(s: Seq<(Vec<u8>, Vec<u8>)>) -> Seq<(Seq<u8>, Seq<u8>)> {
    Seq::new(s.len(), |i: int| (s[i].0@, s[i].1@))
}

// ---------------------------------------------------------------------------
// Scanning
// ---------------------------------------------------------------------------

/// The first index at or after `i` holding byte `b`, or the length if none.
pub open spec fn find_byte_from(s: Seq<u8>, b: u8, i: int) -> int
    decreases s.len() - i when 0 <= i <= s.len()
{
    if i >= s.len() {
        s.len() as int
    } else if s[i] == b {
        i
    } else {
        find_byte_from(s, b, i + 1)
    }
}

pub proof fn lemma_find_byte_from_bounds(s: Seq<u8>, b: u8, i: int)
    requires
        0 <= i <= s.len(),
    ensures
        i <= find_byte_from(s, b, i) <= s.len(),
        find_byte_from(s, b, i) < s.len() ==> s[find_byte_from(s, b, i)] == b,
        forall|j: int| i <= j < find_byte_from(s, b, i) ==> s[j] != b,
    decreases s.len() - i,
{
    if i < s.len() && s[i] != b {
        lemma_find_byte_from_bounds(s, b, i + 1);
    }
}

/// Where the scan starts before a region free of `b`, the result is the same
/// as starting after that region.
pub proof fn lemma_find_byte_from_skip(s: Seq<u8>, b: u8, i: int, k: int)
    requires
        0 <= i <= k <= s.len(),
        forall|j: int| i <= j < k ==> s[j] != b,
    ensures
        find_byte_from(s, b, i) == find_byte_from(s, b, k),
    decreases k - i,
{
    if i < k {
        lemma_find_byte_from_skip(s, b, i + 1, k);
    }
}

/// Executable counterpart of `find_byte_from`.
pub fn find_byte(s: &Vec<u8>, b: u8, from: usize) -> (r: usize)
    requires
        from <= s@.len(),
    ensures
        r == find_byte_from(s@, b, from as int),
{
    let mut i: usize = from;
    while i < s.len()
        invariant
            from <= i <= s@.len(),
            forall|j: int| from <= j < i ==> s@[j] != b,
        decreases s@.len() - i,
    {
        if s[i] == b {
            proof {
                lemma_find_byte_from_skip(s@, b, from as int, i as int);
            }
            return i;
        }
        i += 1;
    }
    proof {
        lemma_find_byte_from_skip(s@, b, from as int, s@.len() as int);
    }
    i
}

/// Copies the bytes of `s` between `a` (inclusive) and `b` (exclusive).
pub fn copy_range(s: &Vec<u8>, a: usize, b: usize) -> (r: Vec<u8>)
    requires
        a <= b <= s@.len(),
    ensures
        r@ == s@.subrange(a as int, b as int),
{
    let mut r: Vec<u8> = Vec::new();
    let mut i: usize = a;
    while i < b
        invariant
            a <= i <= b <= s@.len(),
            r@ == s@.subrange(a as int, i as int),
        decreases b - i,
    {
        r.push(s[i]);
        proof {
            assert(s@.subrange(a as int, i + 1) =~= s@.subrange(a as int, i as int).push(
                s@[i as int],
            ));
        }
        i += 1;
    }
    r
}

// ---------------------------------------------------------------------------
// Lexicographic order and sorting of names
// ---------------------------------------------------------------------------

/// Byte-lexicographic order, with a prefix before its extensions.
pub open spec fn lex_le(a: Seq<u8>, b: Seq<u8>) -> bool
    decreases a.len(),
{
    if a.len() == 0 {
        true
    } else if b.len() == 0 {
        false
    } else if a[0] < b[0] {
        true
    } else if a[0] > b[0] {
        false
    } else {
        lex_le(a.drop_first(), b.drop_first())
    }
}

/// Executable counterpart of `lex_le`.
pub fn lex_le_exec(a: &Vec<u8>, b: &Vec<u8>) -> (r: bool)
    ensures
        r == lex_le(a@, b@),
{
    let mut i: usize = 0;
    proof {
        assert(a@.skip(0) =~= a@);
        assert(b@.skip(0) =~= b@);
    }
    loop
        invariant
            i <= a@.len(),
            i <= b@.len(),
            lex_le(a@, b@) == lex_le(a@.skip(i as int), b@.skip(i as int)),
        decreases a@.len() - i,
    {
        if i == a.len() {
            return true;
        }
        if i == b.len() {
            return false;
        }
        let x = a[i];
        let y = b[i];
        proof {
            assert(a@.skip(i as int).drop_first() =~= a@.skip(i + 1));
            assert(b@.skip(i as int).drop_first() =~= b@.skip(i + 1));
        }
        if x < y {
            return true;
        }
        if x > y {
            return false;
        }
        i += 1;
    }
}

/// Inserts a name into a sorted sequence, before the first name it precedes.
pub open spec fn insert_name(x: Seq<u8>, s: Seq<Seq<u8>>) -> Seq<Seq<u8>>
    decreases s.len(),
{
    if s.len() == 0 {
        seq![x]
    } else if lex_le(x, s[0]) {
        seq![x] + s
    } else {
        seq![s[0]] + insert_name(x, s.drop_first())
    }
}

/// Insertion sort of a sequence of names.
pub open spec fn sort_names(s: Seq<Seq<u8>>) -> Seq<Seq<u8>>
    decreases s.len(),
{
    if s.len() == 0 {
        Seq::empty()
    } else {
        insert_name(s[0], sort_names(s.drop_first()))
    }
}

/// A non-empty sequence holds an element exactly when its head is that
/// element or its tail holds it.
pub proof fn lemma_cons_contains(h: Seq<u8>, t: Seq<Seq<u8>>, y: Seq<u8>)
    ensures
        (seq![h] + t).contains(y) <==> (y == h || t.contains(y)),
{
    let r = seq![h] + t;
    if r.contains(y) {
        let i = choose|i: int| 0 <= i < r.len() && r[i] == y;
        if i == 0 {
            assert(y == h);
        } else {
            assert(t[i - 1] == y);
        }
    }
    if y == h {
        assert(r[0] == y);
    }
    if t.contains(y) {
        let i = choose|i: int| 0 <= i < t.len() && t[i] == y;
        assert(r[i + 1] == y);
    }
}

pub proof fn lemma_insert_contains(x: Seq<u8>, s: Seq<Seq<u8>>, y: Seq<u8>)
    ensures
        insert_name(x, s).contains(y) <==> (y == x || s.contains(y)),
    decreases s.len(),
{
    if s.len() == 0 {
        lemma_cons_contains(x, Seq::empty(), y);
        assert(seq![x] + Seq::<Seq<u8>>::empty() =~= seq![x]);
    } else if lex_le(x, s[0]) {
        lemma_cons_contains(x, s, y);
    } else {
        lemma_insert_contains(x, s.drop_first(), y);
        lemma_cons_contains(s[0], insert_name(x, s.drop_first()), y);
        lemma_cons_contains(s[0], s.drop_first(), y);
        assert(seq![s[0]] + s.drop_first() =~= s);
    }
}

/// Sorting neither adds nor removes names.
pub proof fn lemma_sort_contains(s: Seq<Seq<u8>>, y: Seq<u8>)
    ensures
        sort_names(s).contains(y) <==> s.contains(y),
    decreases s.len(),
{
    if s.len() != 0 {
        lemma_sort_contains(s.drop_first(), y);
        lemma_insert_contains(s[0], sort_names(s.drop_first()), y);
        lemma_cons_contains(s[0], s.drop_first(), y);
        assert(seq![s[0]] + s.drop_first() =~= s);
    }
}

/// Lexicographic order is total.
proof fn lemma_lex_le_total(a: Seq<u8>, b: Seq<u8>)
    ensures
        lex_le(a, b) || lex_le(b, a),
    decreases a.len(),
{
    if a.len() != 0 && b.len() != 0 && a[0] == b[0] {
        lemma_lex_le_total(a.drop_first(), b.drop_first());
    }
}

/// Each name precedes the next in lexicographic order.
pub open spec fn sorted_names(s: Seq<Seq<u8>>) -> bool {
    forall|i: int| 0 <= i < s.len() - 1 ==> lex_le(#[trigger] s[i], s[i + 1])
}

proof fn lemma_insert_sorted(x: Seq<u8>, s: Seq<Seq<u8>>)
    requires
        sorted_names(s),
    ensures
        sorted_names(insert_name(x, s)),
    decreases s.len(),
{
    if s.len() == 0 {
    } else if lex_le(x, s[0]) {
        let r = seq![x] + s;
        assert forall|i: int| 0 <= i < r.len() - 1 implies lex_le(#[trigger] r[i], r[i + 1]) by {
            if i > 0 {
                assert(r[i] == s[i - 1] && r[i + 1] == s[i]);
            }
        }
    } else {
        lemma_lex_le_total(x, s[0]);
        assert forall|i: int| 0 <= i < s.drop_first().len() - 1 implies lex_le(
            #[trigger] s.drop_first()[i],
            s.drop_first()[i + 1],
        ) by {
            assert(s.drop_first()[i] == s[i + 1] && s.drop_first()[i + 1] == s[i + 2]);
        }
        lemma_insert_sorted(x, s.drop_first());
        let ins = insert_name(x, s.drop_first());
        let r = seq![s[0]] + ins;
        assert(lex_le(s[0], ins[0])) by {
            if s.drop_first().len() == 0 {
                assert(ins[0] == x);
            } else if lex_le(x, s.drop_first()[0]) {
                assert(ins[0] == x);
            } else {
                assert(ins[0] == s.drop_first()[0]);
                assert(s.drop_first()[0] == s[1]);
            }
        }
        assert forall|i: int| 0 <= i < r.len() - 1 implies lex_le(#[trigger] r[i], r[i + 1]) by {
            if i > 0 {
                assert(r[i] == ins[i - 1] && r[i + 1] == ins[i]);
            }
        }
    }
}

/// Sorting really orders the names: the signed-header list the engine emits
/// is in lexicographic order.
pub proof fn lemma_sort_sorted(s: Seq<Seq<u8>>)
    ensures
        sorted_names(sort_names(s)),
    decreases s.len(),
{
    if s.len() != 0 {
        lemma_sort_sorted(s.drop_first());
        lemma_insert_sorted(s[0], sort_names(s.drop_first()));
    }
}

/// Executable insertion into a sorted vector of names.
pub fn insert_name_exec(x: Vec<u8>, s: Vec<Vec<u8>>) -> (r: Vec<Vec<u8>>)
    ensures
        views(r@) == insert_name(x@, views(s@)),
    decreases s@.len(),
{
    let ghost s0 = s@;
    let mut s = s;
    if s.len() == 0 {
        let mut r: Vec<Vec<u8>> = Vec::new();
        r.push(x);
        assert(views(r@) =~= insert_name(x@, views(s0)));
        return r;
    }
    if lex_le_exec(&x, &s[0]) {
        proof {
            assert(views(s0)[0] == s0[0]@);
        }
        s.insert(0, x);
        assert(views(s@) =~= seq![x@] + views(s0));
        return s;
    }
    let head = s.remove(0);
    proof {
        assert(views(s@) =~= views(s0).drop_first());
        assert(views(s0)[0] == head@);
    }
    let mut r = insert_name_exec(x, s);
    r.insert(0, head);
    proof {
        assert(views(r@) =~= seq![head@] + insert_name(x@, views(s0).drop_first()));
    }
    r
}

/// Executable insertion sort of a vector of names.
pub fn sort_names_exec(s: Vec<Vec<u8>>) -> (r: Vec<Vec<u8>>)
    ensures
        views(r@) == sort_names(views(s@)),
    decreases s@.len(),
{
    let ghost s0 = s@;
    let mut s = s;
    if s.len() == 0 {
        let r: Vec<Vec<u8>> = Vec::new();
        assert(views(r@) =~= sort_names(views(s0)));
        return r;
    }
    let head = s.remove(0);
    proof {
        assert(views(s@) =~= views(s0).drop_first());
        assert(views(s0)[0] == head@);
    }
    let sorted = sort_names_exec(s);
    insert_name_exec(head, sorted)
}

} // verus!
