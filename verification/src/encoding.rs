//! Base64 text: the label of a project window and the content of a file as
//! it is handed to the front end.

use crate::text::{append, from_chars, to_chars};
use vstd::prelude::*;
use vstd::string::StringSliceAdditionalSpecFns;

verus! {

/// The text that the standard base64 engine of the crate `base64` makes of
/// the given bytes: the standard alphabet, with padding.
pub uninterp spec fn base64_standard(bytes: Seq<u8>) -> Seq<char>;

/// The text that the engine `URL_SAFE_NO_PAD` of the crate `base64` makes of
/// the given bytes: the URL-safe alphabet, without padding.
pub uninterp spec fn base64_url_safe_no_pad(bytes: Seq<u8>) -> Seq<char>;

/// Whether the base64 text of so many bytes has a length that fits the machine.
pub open spec fn encodable(len: nat) -> bool {
    len / 3 * 4 + 4 <= usize::MAX
}

/// `Engine::encode` of `base64::engine::general_purpose::STANDARD`. It panics
/// where the length of its result overflows, so such inputs are left out.
#[verifier::external_body]
fn encode_standard(bytes: &[u8]) -> (r: String)
    requires
        encodable(bytes@.len()),
    ensures
        r@ == base64_standard(bytes@),
{
    base64::Engine::encode(&base64::engine::general_purpose::STANDARD, bytes)
}

/// `Engine::encode` of `base64::engine::general_purpose::URL_SAFE_NO_PAD`. It
/// panics where the length of its result overflows, so such inputs are left out.
#[verifier::external_body]
fn encode_url_safe_no_pad(bytes: &[u8]) -> (r: String)
    requires
        encodable(bytes@.len()),
    ensures
        r@ == base64_url_safe_no_pad(bytes@),
{
    base64::Engine::encode(&base64::engine::general_purpose::URL_SAFE_NO_PAD, bytes)
}

/// The content of a file as base64 text.
pub fn encode_file_content(bytes: &[u8]) -> (r: String)
    requires
        encodable(bytes@.len()),
    ensures
        r@ == base64_standard(bytes@),
{
    encode_standard(bytes)
}

/// What every label of a project window begins with.
pub open spec fn project_label_prefix() -> Seq<char> {
    "project-"@
}

/// The label of the window of a project: the prefix and the project's root
/// path in URL-safe base64 without padding, so that one path has one label.
pub fn project_window_label(root_path: &str) -> (r: String)
    requires
        encodable(root_path.spec_bytes().len()),
    ensures
        r@ == project_label_prefix() + base64_url_safe_no_pad(root_path.spec_bytes()),
{
    let encoded = encode_url_safe_no_pad(root_path.as_bytes());
    let mut out = to_chars("project-");
    append(&mut out, &to_chars(encoded.as_str()));
    from_chars(&out)
}

} // verus!
