//! The durable identity of a mail source and of the connection to it.

use crate::account::{AccountModel, AuthType, Encryption, MailBox};
use crate::failure;
use crate::failure::{raise, BichonError, ErrorCode};
use crate::text;
use crate::text::{characters, push_word, to_lowercase, trim, without_trailing_dots};
use vstd::prelude::*;

verus! {

/// The hexadecimal text of the BLAKE3 hash of some bytes.
pub uninterp spec fn blake3_hex(data: Seq<u8>) -> Seq<char>;

/// Hashes bytes with `blake3::Hasher` and encodes the hash with `Hash::to_hex`.
/// The result is a function of the bytes alone, of 64 characters, each a digit
/// or a small letter from `a` to `f`.
#[verifier::external_body]
fn hash_hex(data: &[u8]) -> (hex: String)
    ensures
        hex@ == blake3_hex(data@),
        hex@.len() == 64,
        forall|i: int|
            0 <= i < 64 ==> 48 <= (#[trigger] hex@[i]) as int <= 57 || 97 <= hex@[i] as int <= 102,
{
    let mut hasher = blake3::Hasher::new();
    hasher.update(data);
    hasher.finalize().to_hex().to_string()
}

/// A number in `width` bytes, the most significant first.
pub open spec fn big_endian(n: nat, width: nat) -> Seq<u8>
    decreases width,
{
    if width == 0 {
        Seq::empty()
    } else {
        big_endian(n / 256, (width - 1) as nat).push((n % 256) as u8)
    }
}

/// Bytes preceded by their number.
pub open spec fn counted(field: Seq<u8>) -> Seq<u8> {
    big_endian(field.len(), 8) + field
}

/// The host of a source: trimmed, without trailing dots, in small letters.
pub open spec fn canonical_host(host: Seq<char>) -> Seq<char> {
    text::lowercase(text::without_trailing(text::trimmed(host), |c: char| c == '.'))
}

/// What identifies a source: host, principal and port.
pub open spec fn source_bytes(host: Seq<char>, principal: Seq<char>, port: u16) -> Seq<u8> {
    text::word_bytes("bichon-uidonly-source-v2\0"@) + counted(vstd::utf8::encode_utf8(host))
        + counted(vstd::utf8::encode_utf8(principal)) + big_endian(port as nat, 2)
}

/// The scope of the source of an account.
pub open spec fn source_of(account: AccountModel) -> Result<Seq<char>, failure::Failure> {
    match account.imap {
        None => Err(
            failure::failure(
                ErrorCode::MissingConfiguration,
                "UIDONLY account has no IMAP configuration"@,
            ),
        ),
        Some(imap) => {
            let host = canonical_host(imap.host@);
            if host.len() == 0 || account.principal().len() == 0 || imap.port == 0 {
                Err(
                    failure::failure(
                        ErrorCode::MissingConfiguration,
                        "UIDONLY source identity is incomplete"@,
                    ),
                )
            } else {
                Ok(blake3_hex(source_bytes(host, account.principal(), imap.port)))
            }
        },
    }
}

pub open spec fn encryption_byte(encryption: Encryption) -> u8 {
    match encryption {
        Encryption::Ssl => 1,
        Encryption::StartTls => 2,
        Encryption::Plain => 3,
    }
}

pub open spec fn auth_byte(auth_type: AuthType) -> u8 {
    match auth_type {
        AuthType::Password => 1,
        AuthType::OAuth2 => 2,
    }
}

pub open spec fn proxy_bytes(proxy: Option<u64>) -> Seq<u8> {
    match proxy {
        Some(id) => seq![1u8] + big_endian(id as nat, 8),
        None => seq![0u8],
    }
}

/// What identifies a connection: its source and how it is made.
pub open spec fn connection_bytes(
    source: Seq<char>,
    encryption: Encryption,
    dangerous: bool,
    proxy: Option<u64>,
    auth_type: AuthType,
) -> Seq<u8> {
    text::word_bytes("bichon-uidonly-connection-v1\0"@) + vstd::utf8::encode_utf8(source)
        + seq![encryption_byte(encryption), if dangerous { 1u8 } else { 0u8 }] + proxy_bytes(proxy)
        + seq![auth_byte(auth_type)]
}

/// The scope of the connection of an account.
pub open spec fn connection_of(account: AccountModel) -> Result<Seq<char>, failure::Failure> {
    match source_of(account) {
        Err(e) => Err(e),
        Ok(source) => {
            let imap = account.imap->0;
            Ok(
                blake3_hex(
                    connection_bytes(
                        source,
                        imap.encryption,
                        account.use_dangerous,
                        imap.use_proxy,
                        imap.auth.auth_type,
                    ),
                ),
            )
        },
    }
}

/// A text result taken by its views.
pub open spec fn scoped(result: Result<String, BichonError>) -> Result<
    Seq<char>,
    failure::Failure,
> {
    match result {
        Ok(scope) => Ok(scope@),
        Err(e) => Err(e@),
    }
}

fn push_big_endian(out: &mut Vec<u8>, n: u64, width: usize)
    ensures
        final(out)@ == old(out)@ + big_endian(n as nat, width as nat),
    decreases width,
{
    if width > 0 {
        push_big_endian(out, n / 256, width - 1);
        out.push((n % 256) as u8);
    }
    assert(out@ =~= old(out)@ + big_endian(n as nat, width as nat));
}

fn push_counted(out: &mut Vec<u8>, field: &[u8])
    ensures
        final(out)@ == old(out)@ + counted(field@),
{
    push_big_endian(out, field.len() as u64, 8);
    out.extend_from_slice(field);
    assert(out@ =~= old(out)@ + counted(field@));
}

/// The scope of the source of an account: host, principal and port, not how the
/// connection is made.
pub fn source_scope(account: &AccountModel) -> (result: Result<String, BichonError>)
    ensures
        scoped(result) == source_of(*account),
        result matches Ok(scope) ==> scope@.len() == 64 && text::ascii(scope@),
{
    let imap = match &account.imap {
        None => {
            return Err(
                raise(
                    ErrorCode::MissingConfiguration,
                    "UIDONLY account has no IMAP configuration",
                ),
            );
        },
        Some(imap) => imap,
    };
    let host = characters(imap.host.as_str());
    let host = to_lowercase(without_trailing_dots(trim(host.as_slice())));
    let principal = account.login();
    if host.as_str().is_empty() || principal.as_str().is_empty() || imap.port == 0 {
        return Err(
            raise(ErrorCode::MissingConfiguration, "UIDONLY source identity is incomplete"),
        );
    }
    let mut data: Vec<u8> = Vec::new();
    proof {
        reveal_strlit("bichon-uidonly-source-v2\0");
    }
    push_word(&mut data, "bichon-uidonly-source-v2\0");
    push_counted(&mut data, host.as_str().as_bytes());
    push_counted(&mut data, principal.as_str().as_bytes());
    push_big_endian(&mut data, imap.port as u64, 2);
    assert(data@ =~= source_bytes(host@, account.principal(), imap.port));
    Ok(hash_hex(data.as_slice()))
}

/// The scope of the connection of an account: its source and how it is made.
pub fn connection_scope(account: &AccountModel) -> (result: Result<String, BichonError>)
    ensures
        scoped(result) == connection_of(*account),
{
    let imap = match &account.imap {
        None => {
            return Err(
                raise(
                    ErrorCode::MissingConfiguration,
                    "UIDONLY account has no IMAP configuration",
                ),
            );
        },
        Some(imap) => imap,
    };
    let source = match source_scope(account) {
        Err(e) => {
            return Err(e);
        },
        Ok(source) => source,
    };
    let mut data: Vec<u8> = Vec::new();
    proof {
        reveal_strlit("bichon-uidonly-connection-v1\0");
    }
    push_word(&mut data, "bichon-uidonly-connection-v1\0");
    data.extend_from_slice(source.as_str().as_bytes());
    data.push(
        match imap.encryption {
            Encryption::Ssl => 1,
            Encryption::StartTls => 2,
            Encryption::Plain => 3,
        },
    );
    data.push(
        if account.use_dangerous {
            1
        } else {
            0
        },
    );
    match imap.use_proxy {
        Some(proxy) => {
            data.push(1);
            push_big_endian(&mut data, proxy, 8);
        },
        None => {
            data.push(0);
        },
    }
    data.push(
        match imap.auth.auth_type {
            AuthType::Password => 1,
            AuthType::OAuth2 => 2,
        },
    );
    assert(data@ =~= connection_bytes(
        source@,
        imap.encryption,
        account.use_dangerous,
        imap.use_proxy,
        imap.auth.auth_type,
    ));
    Ok(hash_hex(data.as_slice()))
}

/// The mailbox was proven complete against the account's present source.
pub open spec fn proven(account: AccountModel, mailbox: MailBox) -> bool {
    source_of(account) is Ok && mailbox.uidonly_source_scope is Some
        && mailbox.uidonly_source_scope->0@ == source_of(account)->Ok_0
}

/// Whether the mailbox was proven complete against the account's present source.
pub fn mailbox_has_uidonly_proof(account: &AccountModel, mailbox: &MailBox) -> (result: bool)
    ensures
        result == proven(*account, *mailbox),
{
    match (source_scope(account), &mailbox.uidonly_source_scope) {
        (Ok(scope), Some(known)) => *known == scope,
        _ => false,
    }
}

/// The scope of a source depends on the canonical host, the principal and the port alone,
/// not on how the connection is made.
pub proof fn law_source_ignores_connection_policy(a: AccountModel, b: AccountModel)
    requires
        a.principal() == b.principal(),
        a.imap is Some,
        b.imap is Some,
        canonical_host(a.imap->0.host@) == canonical_host(b.imap->0.host@),
        a.imap->0.port == b.imap->0.port,
    ensures
        source_of(a) == source_of(b),
{
}

proof fn lemma_big_endian_is_injective(a: nat, b: nat, width: nat)
    requires
        big_endian(a, width) == big_endian(b, width),
        a < pow256(width),
        b < pow256(width),
    ensures
        a == b,
    decreases width,
{
    if width > 0 {
        let w = (width - 1) as nat;
        assert(big_endian(a, width).last() as int == a % 256);
        assert(big_endian(b, width).last() as int == b % 256);
        assert(big_endian(a, width).drop_last() =~= big_endian(a / 256, w));
        assert(big_endian(b, width).drop_last() =~= big_endian(b / 256, w));
        lemma_big_endian_is_injective(a / 256, b / 256, w);
    }
}

/// The numbers of `width` bytes.
pub open spec fn pow256(width: nat) -> nat
    decreases width,
{
    if width == 0 {
        1
    } else {
        256 * pow256((width - 1) as nat)
    }
}

proof fn lemma_big_endian_len(n: nat, width: nat)
    ensures
        big_endian(n, width).len() == width,
    decreases width,
{
    if width > 0 {
        lemma_big_endian_len(n / 256, (width - 1) as nat);
    }
}

proof fn lemma_pow256()
    ensures
        pow256(2) == 65_536,
        pow256(8) == 18_446_744_073_709_551_616,
{
    reveal_with_fuel(pow256, 9);
}

proof fn lemma_counted_splits(a: Seq<u8>, ra: Seq<u8>, b: Seq<u8>, rb: Seq<u8>)
    requires
        counted(a) + ra == counted(b) + rb,
        a.len() <= u64::MAX,
        b.len() <= u64::MAX,
    ensures
        a == b,
        ra == rb,
{
    lemma_big_endian_len(a.len(), 8);
    lemma_big_endian_len(b.len(), 8);
    lemma_pow256();
    let left = counted(a) + ra;
    let right = counted(b) + rb;
    assert(left.take(8) =~= big_endian(a.len(), 8));
    assert(right.take(8) =~= big_endian(b.len(), 8));
    lemma_big_endian_is_injective(a.len(), b.len(), 8);
    assert(left.subrange(8, 8 + a.len() as int) =~= a);
    assert(right.subrange(8, 8 + b.len() as int) =~= b);
    assert(left.skip(8 + a.len() as int) =~= ra);
    assert(right.skip(8 + b.len() as int) =~= rb);
}

/// Different sources have different identifying bytes: host, principal and port
/// can be read back from them.
pub proof fn law_source_bytes_are_unambiguous(
    host_a: Seq<char>,
    principal_a: Seq<char>,
    port_a: u16,
    host_b: Seq<char>,
    principal_b: Seq<char>,
    port_b: u16,
)
    requires
        source_bytes(host_a, principal_a, port_a) == source_bytes(host_b, principal_b, port_b),
        vstd::utf8::encode_utf8(host_a).len() <= u64::MAX,
        vstd::utf8::encode_utf8(principal_a).len() <= u64::MAX,
        vstd::utf8::encode_utf8(host_b).len() <= u64::MAX,
        vstd::utf8::encode_utf8(principal_b).len() <= u64::MAX,
    ensures
        host_a == host_b,
        principal_a == principal_b,
        port_a == port_b,
{
    let ha = vstd::utf8::encode_utf8(host_a);
    let hb = vstd::utf8::encode_utf8(host_b);
    let pa = vstd::utf8::encode_utf8(principal_a);
    let pb = vstd::utf8::encode_utf8(principal_b);
    let prefix = text::word_bytes("bichon-uidonly-source-v2\0"@);
    let a = source_bytes(host_a, principal_a, port_a);
    let b = source_bytes(host_b, principal_b, port_b);
    let tail_a = counted(pa) + big_endian(port_a as nat, 2);
    let tail_b = counted(pb) + big_endian(port_b as nat, 2);
    assert(a.skip(prefix.len() as int) =~= counted(ha) + tail_a);
    assert(b.skip(prefix.len() as int) =~= counted(hb) + tail_b);
    lemma_counted_splits(ha, tail_a, hb, tail_b);
    lemma_counted_splits(pa, big_endian(port_a as nat, 2), pb, big_endian(port_b as nat, 2));
    lemma_pow256();
    lemma_big_endian_is_injective(port_a as nat, port_b as nat, 2);
    vstd::utf8::encode_utf8_decode_utf8(host_a);
    vstd::utf8::encode_utf8_decode_utf8(host_b);
    vstd::utf8::encode_utf8_decode_utf8(principal_a);
    vstd::utf8::encode_utf8_decode_utf8(principal_b);
}

/// Different connections have different identifying bytes: for scopes of one
/// length, every part can be read back from them.
pub proof fn law_connection_bytes_are_unambiguous(
    source_a: Seq<char>,
    encryption_a: Encryption,
    dangerous_a: bool,
    proxy_a: Option<u64>,
    auth_a: AuthType,
    source_b: Seq<char>,
    encryption_b: Encryption,
    dangerous_b: bool,
    proxy_b: Option<u64>,
    auth_b: AuthType,
)
    requires
        connection_bytes(source_a, encryption_a, dangerous_a, proxy_a, auth_a)
            == connection_bytes(source_b, encryption_b, dangerous_b, proxy_b, auth_b),
        source_a.len() == 64,
        source_b.len() == 64,
        text::ascii(source_a),
        text::ascii(source_b),
    ensures
        source_a == source_b,
        encryption_a == encryption_b,
        dangerous_a == dangerous_b,
        proxy_a == proxy_b,
        auth_a == auth_b,
{
    let a = connection_bytes(source_a, encryption_a, dangerous_a, proxy_a, auth_a);
    let b = connection_bytes(source_b, encryption_b, dangerous_b, proxy_b, auth_b);
    let prefix = text::word_bytes("bichon-uidonly-connection-v1\0"@);
    let p = prefix.len() as int;
    vstd::utf8::is_ascii_chars_encode_utf8(source_a);
    vstd::utf8::is_ascii_chars_encode_utf8(source_b);
    assert(a.subrange(p, p + 64) =~= vstd::utf8::encode_utf8(source_a));
    assert(b.subrange(p, p + 64) =~= vstd::utf8::encode_utf8(source_b));
    vstd::utf8::encode_utf8_decode_utf8(source_a);
    vstd::utf8::encode_utf8_decode_utf8(source_b);
    assert(a[p + 64] == encryption_byte(encryption_a));
    assert(b[p + 64] == encryption_byte(encryption_b));
    assert(a[p + 65] == if dangerous_a { 1u8 } else { 0u8 });
    assert(b[p + 65] == if dangerous_b { 1u8 } else { 0u8 });
    assert(a[p + 66] == proxy_bytes(proxy_a)[0]);
    assert(b[p + 66] == proxy_bytes(proxy_b)[0]);
    assert(a.last() == auth_byte(auth_a));
    assert(b.last() == auth_byte(auth_b));
    if proxy_a is Some && proxy_b is Some {
        lemma_big_endian_len(proxy_a->0 as nat, 8);
        lemma_big_endian_len(proxy_b->0 as nat, 8);
        assert(a.subrange(p + 67, p + 75) =~= big_endian(proxy_a->0 as nat, 8));
        assert(b.subrange(p + 67, p + 75) =~= big_endian(proxy_b->0 as nat, 8));
        lemma_pow256();
        lemma_big_endian_is_injective(proxy_a->0 as nat, proxy_b->0 as nat, 8);
    }
}

/// Different bytes have the same hash.
pub open spec fn collide(a: Seq<u8>, b: Seq<u8>) -> bool {
    a != b && blake3_hex(a) == blake3_hex(b)
}

/// The bytes that identify the source of an account with a server.
pub open spec fn source_bytes_of(account: AccountModel) -> Seq<u8> {
    let imap = account.imap->0;
    source_bytes(canonical_host(imap.host@), account.principal(), imap.port)
}

/// A text of a length that a machine can hold.
pub open spec fn holdable(s: Seq<char>) -> bool {
    vstd::utf8::encode_utf8(s).len() <= u64::MAX
}

/// Two accounts have the same source scope exactly where they have the same canonical host,
/// principal and port, unless their identifying bytes have the same hash by accident.
pub proof fn law_sources_are_told_apart(a: AccountModel, b: AccountModel)
    requires
        source_of(a) is Ok,
        source_of(b) is Ok,
        holdable(canonical_host(a.imap->0.host@)),
        holdable(canonical_host(b.imap->0.host@)),
        holdable(a.principal()),
        holdable(b.principal()),
        !collide(source_bytes_of(a), source_bytes_of(b)),
    ensures
        source_of(a) == source_of(b) <==> {
            &&& canonical_host(a.imap->0.host@) == canonical_host(b.imap->0.host@)
            &&& a.principal() == b.principal()
            &&& a.imap->0.port == b.imap->0.port
        },
{
    if source_of(a) == source_of(b) {
        law_source_bytes_are_unambiguous(
            canonical_host(a.imap->0.host@),
            a.principal(),
            a.imap->0.port,
            canonical_host(b.imap->0.host@),
            b.principal(),
            b.imap->0.port,
        );
    }
}

/// The bytes that identify the connection of an account with a server.
pub open spec fn connection_bytes_of(account: AccountModel) -> Seq<u8> {
    let imap = account.imap->0;
    connection_bytes(
        source_of(account)->Ok_0,
        imap.encryption,
        account.use_dangerous,
        imap.use_proxy,
        imap.auth.auth_type,
    )
}

/// The bytes of a connection behind those of its source.
spec fn policy_bytes(account: AccountModel) -> Seq<u8> {
    let imap = account.imap->0;
    seq![encryption_byte(imap.encryption), if account.use_dangerous { 1u8 } else { 0u8 }]
        + proxy_bytes(imap.use_proxy) + seq![auth_byte(imap.auth.auth_type)]
}

/// Two accounts with one source have the same connection scope exactly where they connect the
/// same way, unless their identifying bytes have the same hash by accident.
pub proof fn law_connections_are_told_apart(a: AccountModel, b: AccountModel)
    requires
        source_of(a) is Ok,
        source_of(a) == source_of(b),
        !collide(connection_bytes_of(a), connection_bytes_of(b)),
    ensures
        connection_of(a) == connection_of(b) <==> {
            &&& a.imap->0.encryption == b.imap->0.encryption
            &&& a.use_dangerous == b.use_dangerous
            &&& a.imap->0.use_proxy == b.imap->0.use_proxy
            &&& a.imap->0.auth.auth_type == b.imap->0.auth.auth_type
        },
{
    if connection_of(a) == connection_of(b) {
        let start = text::word_bytes("bichon-uidonly-connection-v1\0"@)
            + vstd::utf8::encode_utf8(source_of(a)->Ok_0);
        let x = policy_bytes(a);
        let y = policy_bytes(b);
        assert(connection_bytes_of(a).skip(start.len() as int) =~= x);
        assert(connection_bytes_of(b).skip(start.len() as int) =~= y);
        let proxy_a = a.imap->0.use_proxy;
        let proxy_b = b.imap->0.use_proxy;
        assert(x[0] == encryption_byte(a.imap->0.encryption));
        assert(y[0] == encryption_byte(b.imap->0.encryption));
        assert(x[1] == if a.use_dangerous { 1u8 } else { 0u8 });
        assert(y[1] == if b.use_dangerous { 1u8 } else { 0u8 });
        assert(x[2] == proxy_bytes(proxy_a)[0]);
        assert(y[2] == proxy_bytes(proxy_b)[0]);
        assert(x.last() == auth_byte(a.imap->0.auth.auth_type));
        assert(y.last() == auth_byte(b.imap->0.auth.auth_type));
        if proxy_a is Some && proxy_b is Some {
            lemma_big_endian_len(proxy_a->0 as nat, 8);
            lemma_big_endian_len(proxy_b->0 as nat, 8);
            assert(x.subrange(3, 11) =~= big_endian(proxy_a->0 as nat, 8));
            assert(y.subrange(3, 11) =~= big_endian(proxy_b->0 as nat, 8));
            lemma_pow256();
            lemma_big_endian_is_injective(proxy_a->0 as nat, proxy_b->0 as nat, 8);
        }
    }
}

} // verus!
