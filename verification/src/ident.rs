//! Classification of identifier characters.

use unicode_xid::UnicodeXID;
use vstd::prelude::*;

verus! {

/// Whether a character beyond ASCII has the Unicode property `XID_Start`.
pub uninterp spec fn xid_start(c: char) -> bool;

/// Whether a character beyond ASCII has the Unicode property `XID_Continue`.
pub uninterp spec fn xid_continue(c: char) -> bool;

/// `a` to `z` and `A` to `Z`.
pub open spec fn is_ascii_letter(c: char) -> bool {
    ('a' <= c && c <= 'z') || ('A' <= c && c <= 'Z')
}

/// `0` to `9`.
pub open spec fn is_ascii_digit(c: char) -> bool {
    '0' <= c && c <= '9'
}

/// A character that may begin an identifier.
pub open spec fn is_ident_start(c: char) -> bool {
    is_ascii_letter(c) || (c > '\x7f' && xid_start(c))
}

/// A character that may continue an identifier.
pub open spec fn is_ident_continue(c: char) -> bool {
    is_ascii_letter(c) || is_ascii_digit(c) || c == '_' || (c > '\x7f' && xid_continue(c))
}

/// Calls `UnicodeXID::is_xid_start` of `unicode-xid` on a `char`. Trusted:
/// an ASCII character is accepted exactly when it is a letter, and any other
/// character exactly when the crate's `XID_Start` table holds it.
#[verifier::external_body]
pub(crate) fn starts_identifier(c: char) -> (r: bool)
    ensures
        r == (is_ascii_letter(c) || (c > '\x7f' && xid_start(c))),
{
    UnicodeXID::is_xid_start(c)
}

/// Calls `UnicodeXID::is_xid_continue` of `unicode-xid` on a `char`. Trusted:
/// an ASCII character is accepted exactly when it is a letter, a digit or
/// `_`, and any other character exactly when the crate's `XID_Continue`
/// table holds it.
#[verifier::external_body]
pub(crate) fn continues_identifier(c: char) -> (r: bool)
    ensures
        r == (is_ascii_letter(c) || is_ascii_digit(c) || c == '_' || (c > '\x7f' && xid_continue(
            c,
        ))),
{
    UnicodeXID::is_xid_continue(c)
}

} // verus!
