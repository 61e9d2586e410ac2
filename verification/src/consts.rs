use vstd::prelude::*;

verus! {

// Fixed byte strings of the protocol, each as a specification-level sequence
// and an executable builder proved to produce exactly that sequence.

/// `"AWS4-HMAC-SHA256"`: the fixed algorithm label.
pub open spec fn spec_algorithm_bytes() -> Seq<u8> {
    seq![65u8, 87u8, 83u8, 52u8, 45u8, 72u8, 77u8, 65u8, 67u8, 45u8, 83u8, 72u8, 65u8, 50u8, 53u8, 54u8]
}

/// Executable counterpart of `spec_algorithm_bytes`.
pub fn algorithm_bytes() -> (r: Vec<u8>)
    ensures
        r@ == spec_algorithm_bytes(),
{
    let mut r: Vec<u8> = Vec::new();
    r.push(65);
    r.push(87);
    r.push(83);
    r.push(52);
    r.push(45);
    r.push(72);
    r.push(77);
    r.push(65);
    r.push(67);
    r.push(45);
    r.push(83);
    r.push(72);
    r.push(65);
    r.push(50);
    r.push(53);
    r.push(54);
    proof { assert(r@ =~= spec_algorithm_bytes()); }
    r
}

/// `" Credential="`: introduces the credential component.
pub open spec fn spec_credential_sep() -> Seq<u8> {
    seq![32u8, 67u8, 114u8, 101u8, 100u8, 101u8, 110u8, 116u8, 105u8, 97u8, 108u8, 61u8]
}

/// Executable counterpart of `spec_credential_sep`.
pub fn credential_sep() -> (r: Vec<u8>)
    ensures
        r@ == spec_credential_sep(),
{
    let mut r: Vec<u8> = Vec::new();
    r.push(32);
    r.push(67);
    r.push(114);
    r.push(101);
    r.push(100);
    r.push(101);
    r.push(110);
    r.push(116);
    r.push(105);
    r.push(97);
    r.push(108);
    r.push(61);
    proof { assert(r@ =~= spec_credential_sep()); }
    r
}

/// `"SignedHeaders="`: the signed-header list component key.
pub open spec fn spec_signed_headers_token() -> Seq<u8> {
    seq![83u8, 105u8, 103u8, 110u8, 101u8, 100u8, 72u8, 101u8, 97u8, 100u8, 101u8, 114u8, 115u8, 61u8]
}

/// Executable counterpart of `spec_signed_headers_token`.
pub fn signed_headers_token() -> (r: Vec<u8>)
    ensures
        r@ == spec_signed_headers_token(),
{
    let mut r: Vec<u8> = Vec::new();
    r.push(83);
    r.push(105);
    r.push(103);
    r.push(110);
    r.push(101);
    r.push(100);
    r.push(72);
    r.push(101);
    r.push(97);
    r.push(100);
    r.push(101);
    r.push(114);
    r.push(115);
    r.push(61);
    proof { assert(r@ =~= spec_signed_headers_token()); }
    r
}

/// `", Signature="`: introduces the signature component.
pub open spec fn spec_signature_sep() -> Seq<u8> {
    seq![44u8, 32u8, 83u8, 105u8, 103u8, 110u8, 97u8, 116u8, 117u8, 114u8, 101u8, 61u8]
}

/// Executable counterpart of `spec_signature_sep`.
pub fn signature_sep() -> (r: Vec<u8>)
    ensures
        r@ == spec_signature_sep(),
{
    let mut r: Vec<u8> = Vec::new();
    r.push(44);
    r.push(32);
    r.push(83);
    r.push(105);
    r.push(103);
    r.push(110);
    r.push(97);
    r.push(116);
    r.push(117);
    r.push(114);
    r.push(101);
    r.push(61);
    proof { assert(r@ =~= spec_signature_sep()); }
    r
}

/// `"aws4_request"`: the fixed scope terminator.
pub open spec fn spec_aws4_request_bytes() -> Seq<u8> {
    seq![97u8, 119u8, 115u8, 52u8, 95u8, 114u8, 101u8, 113u8, 117u8, 101u8, 115u8, 116u8]
}

/// Executable counterpart of `spec_aws4_request_bytes`.
pub fn aws4_request_bytes() -> (r: Vec<u8>)
    ensures
        r@ == spec_aws4_request_bytes(),
{
    let mut r: Vec<u8> = Vec::new();
    r.push(97);
    r.push(119);
    r.push(115);
    r.push(52);
    r.push(95);
    r.push(114);
    r.push(101);
    r.push(113);
    r.push(117);
    r.push(101);
    r.push(115);
    r.push(116);
    proof { assert(r@ =~= spec_aws4_request_bytes()); }
    r
}

/// `"host"`: the canonical Host header name.
pub open spec fn spec_host_name() -> Seq<u8> {
    seq![104u8, 111u8, 115u8, 116u8]
}

/// Executable counterpart of `spec_host_name`.
pub fn host_name() -> (r: Vec<u8>)
    ensures
        r@ == spec_host_name(),
{
    let mut r: Vec<u8> = Vec::new();
    r.push(104);
    r.push(111);
    r.push(115);
    r.push(116);
    proof { assert(r@ =~= spec_host_name()); }
    r
}

/// `"x-amz-date"`: the canonical timestamp header name.
pub open spec fn spec_x_amz_date_name() -> Seq<u8> {
    seq![120u8, 45u8, 97u8, 109u8, 122u8, 45u8, 100u8, 97u8, 116u8, 101u8]
}

/// Executable counterpart of `spec_x_amz_date_name`.
pub fn x_amz_date_name() -> (r: Vec<u8>)
    ensures
        r@ == spec_x_amz_date_name(),
{
    let mut r: Vec<u8> = Vec::new();
    r.push(120);
    r.push(45);
    r.push(97);
    r.push(109);
    r.push(122);
    r.push(45);
    r.push(100);
    r.push(97);
    r.push(116);
    r.push(101);
    proof { assert(r@ =~= spec_x_amz_date_name()); }
    r
}

/// `"authorization"`: the canonical Authorization header name.
pub open spec fn spec_authorization_name() -> Seq<u8> {
    seq![97u8, 117u8, 116u8, 104u8, 111u8, 114u8, 105u8, 122u8, 97u8, 116u8, 105u8, 111u8, 110u8]
}

/// Executable counterpart of `spec_authorization_name`.
pub fn authorization_name() -> (r: Vec<u8>)
    ensures
        r@ == spec_authorization_name(),
{
    let mut r: Vec<u8> = Vec::new();
    r.push(97);
    r.push(117);
    r.push(116);
    r.push(104);
    r.push(111);
    r.push(114);
    r.push(105);
    r.push(122);
    r.push(97);
    r.push(116);
    r.push(105);
    r.push(111);
    r.push(110);
    proof { assert(r@ =~= spec_authorization_name()); }
    r
}

} // verus!
