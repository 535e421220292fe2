//! OSC 52: putting text on the clipboard of the terminal the reader is AT.
//!
//! A library on a remote host cannot reach the reader's own clipboard; the
//! escape sequence can, because the local terminal emulator interprets it.
//! It is write-only, so a terminal that refuses it looks exactly like one that
//! took it — which is why the caller never treats a sent sequence as a copy
//! that landed.
use vstd::prelude::*;
use vstd::string::StringSliceAdditionalSpecFns;
use vstd::utf8::encode_utf8;

use base64::Engine as _;

use super::{wrapped, Wrap};

verus! {

/// What a terminal will carry. Several cap OSC 52 at about 8 KB, and the
/// payload that matters is the BASE64, not the text.
pub const MAX_PAYLOAD: usize = 8192;

/// The standard, padded base64 of `bytes`, as `base64`'s `STANDARD` engine
/// encodes it.
pub uninterp spec fn base64_standard(bytes: Seq<u8>) -> Seq<char>;

/// How long padded base64 is for `n` bytes: four characters for every three
/// bytes or part of three.
pub open spec fn base64_len(n: nat) -> nat {
    4 * ((n + 2) / 3)
}

/// Calls `base64::engine::general_purpose::STANDARD.encode(bytes)`.
///
/// Trusted: the text is the name [`base64_standard`] of `bytes`, and it is
/// `base64_len` characters long — the length the crate's own `encoded_len`
/// computes with padding on, which is the buffer it fills. The crate panics
/// when that length overflows a `usize`; the `requires` leaves that out.
#[verifier::external_body]
fn encode_base64(bytes: &[u8]) -> (encoded: String)
    requires
        bytes@.len() <= 3 * (usize::MAX / 4),
    ensures
        encoded@ == base64_standard(bytes@),
        encoded@.len() == base64_len(bytes@.len()),
{
    base64::engine::general_purpose::STANDARD.encode(bytes)
}

/// The clipboard sequence for `text`: `ESC ] 52 ; c ; <base64> BEL`, `c`
/// naming the system clipboard.
pub open spec fn clipboard_sequence(text: Seq<char>) -> Seq<char> {
    "\u{1b}]52;c;"@ + base64_standard(encode_utf8(text)) + "\u{7}"@
}

/// The bytes to write to stdout, or `None` when the base64 payload is over
/// [`MAX_PAYLOAD`]: refusing to send is the only honest answer to a limit the
/// terminal would enforce in silence.
pub fn sequence(text: &str, wrap: Wrap) -> (r: Option<String>)
    requires
        encode_utf8(text@).len() <= 3 * (usize::MAX / 4),
    ensures
        r is None <==> base64_len(encode_utf8(text@).len()) > MAX_PAYLOAD,
        r matches Some(s) ==> s@ == wrapped(wrap, clipboard_sequence(text@)),
{
    let payload = encode_base64(text.as_bytes());
    if payload.as_str().unicode_len() > MAX_PAYLOAD {
        return None;
    }
    let mut inner = String::new();
    inner.append("\u{1b}]52;c;");
    inner.append(payload.as_str());
    inner.append("\u{7}");
    Some(wrap.apply(inner))
}

} // verus!
