//! How the scopes of an account are laid out.

use crate::account::{AuthType, Encryption};
use crate::scope;
use crate::text;
use vstd::prelude::*;

verus! {

/// The number that bytes denote, the most significant first.
pub open spec fn number(bytes: Seq<u8>) -> nat
    decreases bytes.len(),
{
    if bytes.len() == 0 {
        0
    } else {
        number(bytes.drop_last()) * 256 + bytes.last() as nat
    }
}

/// Numbers are written in the given width and read back as they were, where they fit.
pub proof fn law_numbers_are_written_in_full(n: nat, width: nat)
    ensures
        scope::big_endian(n, width).len() == width,
        n < vstd::arithmetic::power::pow(256, width) ==> number(scope::big_endian(n, width)) == n,
    decreases width,
{
    if width == 0 {
        vstd::arithmetic::power::lemma_pow0(256);
    } else {
        let shorter = (width - 1) as nat;
        law_numbers_are_written_in_full(n / 256, shorter);
        vstd::arithmetic::power::lemma_pow_positive(256, shorter);
        assert(vstd::arithmetic::power::pow(256, width) == 256 * vstd::arithmetic::power::pow(
            256,
            shorter,
        )) by {
            reveal(vstd::arithmetic::power::pow);
        }
        if n < vstd::arithmetic::power::pow(256, width) {
            let p = vstd::arithmetic::power::pow(256, shorter);
            assert(n / 256 < p) by (nonlinear_arith)
                requires
                    n < 256 * p,
            ;
        }
        let all = scope::big_endian(n, width);
        assert(all.drop_last() =~= scope::big_endian(n / 256, shorter));
        assert(all.last() == n % 256);
    }
}

/// The bytes that identify a source: its own mark first, then the host and the principal,
/// each behind its length in eight bytes, and the port in two.
pub proof fn law_source_bytes_are_laid_out(host: Seq<char>, principal: Seq<char>, port: u16)
    ensures
        ({
            let bytes = scope::source_bytes(host, principal, port);
            let h = vstd::utf8::encode_utf8(host);
            let p = vstd::utf8::encode_utf8(principal);
            let mark = text::word_bytes("bichon-uidonly-source-v2\0"@);
            let m = mark.len() as int;
            let after = m + 8 + h.len();
            &&& bytes.len() == after + 8 + p.len() + 2
            &&& bytes.take(m) == mark
            &&& bytes.subrange(m, m + 8) == scope::big_endian(h.len(), 8)
            &&& bytes.subrange(m + 8, after) == h
            &&& bytes.subrange(after, after + 8) == scope::big_endian(p.len(), 8)
            &&& bytes.subrange(after + 8, after + 8 + p.len()) == p
            &&& number(bytes.skip(bytes.len() - 2)) == port
        }),
{
    let bytes = scope::source_bytes(host, principal, port);
    let h = vstd::utf8::encode_utf8(host);
    let p = vstd::utf8::encode_utf8(principal);
    let mark = text::word_bytes("bichon-uidonly-source-v2\0"@);
    law_numbers_are_written_in_full(h.len(), 8);
    law_numbers_are_written_in_full(p.len(), 8);
    law_numbers_are_written_in_full(port as nat, 2);
    assert(vstd::arithmetic::power::pow(256, 2) == 65536) by {
        reveal_with_fuel(vstd::arithmetic::power::pow, 3);
    }
    let tail = scope::big_endian(port as nat, 2);
    assert(bytes =~= mark + scope::big_endian(h.len(), 8) + h + scope::big_endian(p.len(), 8) + p
        + tail);
    let m = mark.len() as int;
    let after = m + 8 + h.len();
    assert(bytes.take(m) =~= mark);
    assert(bytes.subrange(m, m + 8) =~= scope::big_endian(h.len(), 8));
    assert(bytes.subrange(m + 8, after) =~= h);
    assert(bytes.subrange(after, after + 8) =~= scope::big_endian(p.len(), 8));
    assert(bytes.subrange(after + 8, after + 8 + p.len()) =~= p);
    assert(bytes.skip(bytes.len() - 2) =~= tail);
}

/// The bytes that identify a connection: its own mark, the scope of its source, one byte
/// each for the encryption and for whether dangerous certificates pass, the proxy, and one
/// byte for the way to authenticate.
pub proof fn law_connection_bytes_are_laid_out(
    source: Seq<char>,
    encryption: Encryption,
    dangerous: bool,
    proxy: Option<u64>,
    auth_type: AuthType,
)
    ensures
        ({
            let bytes = scope::connection_bytes(source, encryption, dangerous, proxy, auth_type);
            let mark = text::word_bytes("bichon-uidonly-connection-v1\0"@);
            let s = vstd::utf8::encode_utf8(source);
            let at = (mark.len() + s.len()) as int;
            &&& bytes.take(mark.len() as int) == mark
            &&& bytes.subrange(mark.len() as int, at) == s
            &&& bytes[at] == (match encryption {
                Encryption::Ssl => 1u8,
                Encryption::StartTls => 2u8,
                Encryption::Plain => 3u8,
            })
            &&& bytes[at + 1] == (if dangerous {
                1u8
            } else {
                0u8
            })
            &&& proxy is None ==> bytes.len() == at + 4 && bytes[at + 2] == 0
            &&& proxy matches Some(id) ==> bytes.len() == at + 12 && bytes[at + 2] == 1
                && bytes.subrange(at + 3, at + 11) == scope::big_endian(id as nat, 8)
            &&& bytes[bytes.len() - 1] == (match auth_type {
                AuthType::Password => 1u8,
                AuthType::OAuth2 => 2u8,
            })
        }),
{
    let bytes = scope::connection_bytes(source, encryption, dangerous, proxy, auth_type);
    let mark = text::word_bytes("bichon-uidonly-connection-v1\0"@);
    let s = vstd::utf8::encode_utf8(source);
    let at = (mark.len() + s.len()) as int;
    assert(bytes.take(mark.len() as int) =~= mark);
    assert(bytes.subrange(mark.len() as int, at) =~= s);
    if let Some(id) = proxy {
        law_numbers_are_written_in_full(id as nat, 8);
        assert(bytes.subrange(at + 3, at + 11) =~= scope::big_endian(id as nat, 8));
    }
}

} // verus!
