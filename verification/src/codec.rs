//! The stored form of a configuration: a self-delimiting sequence of bytes
//! that is read back to exactly the configuration that was written.
//!
//! Layout: a four-byte tag, the transport (one byte, then the credential
//! where there is one), the operator's identity, the number of squadmates
//! and the squadmates in order. A text is its length in bytes followed by
//! its UTF-8 encoding; lengths and counts are eight bytes, little-endian.

use crate::config::{identity_views, Config, ConfigView, TransportConfig, TransportView};
use crate::email::{Identity, IdentityView};
use crate::error::Error;
use vstd::bytes::{spec_u64_from_le_bytes, spec_u64_to_le_bytes, u64_from_le_bytes, u64_to_le_bytes};
use vstd::prelude::*;
use vstd::slice::{slice_subrange, slice_to_vec};
use vstd::string::StringSliceAdditionalSpecFns;
use vstd::utf8::{decode_utf8, encode_utf8, valid_utf8};

verus! {

/// The bytes that open every stored configuration.
pub open spec fn tag_bytes() -> Seq<u8> {
    seq![0x52u8, 0x43u8, 0x50u8, 0x01u8]
}

/// A length or a count, as it is stored.
pub open spec fn length_bytes(n: nat) -> Seq<u8> {
    spec_u64_to_le_bytes(n as u64)
}

/// A text, as it is stored.
pub open spec fn text_bytes(text: Seq<char>) -> Seq<u8> {
    length_bytes(encode_utf8(text).len()) + encode_utf8(text)
}

/// An identity, as it is stored: the name, then the address.
pub open spec fn identity_bytes(identity: IdentityView) -> Seq<u8> {
    text_bytes(identity.name) + text_bytes(identity.email)
}

/// The transport, as it is stored.
pub open spec fn transport_bytes(transport: TransportView) -> Seq<u8> {
    match transport {
        TransportView::Sendmail => seq![0u8],
        TransportView::Smtp { credential } => seq![1u8] + text_bytes(credential),
    }
}

/// The entries of a list one after the other, as they are stored.
pub open spec fn list_bytes(list: Seq<IdentityView>) -> Seq<u8>
    decreases list.len(),
{
    if list.len() == 0 {
        Seq::empty()
    } else {
        identity_bytes(list.first()) + list_bytes(list.drop_first())
    }
}

/// A configuration, as it is stored.
pub open spec fn config_bytes(config: ConfigView) -> Seq<u8> {
    tag_bytes() + transport_bytes(config.transport) + identity_bytes(config.identity)
        + length_bytes(config.squadmates.len()) + list_bytes(config.squadmates)
}

/// Whether the length of `text`, once encoded, fits the stored length.
pub open spec fn text_fits(text: Seq<char>) -> bool {
    encode_utf8(text).len() <= u64::MAX
}

/// Whether both texts of `identity` fit.
pub open spec fn identity_fits(identity: IdentityView) -> bool {
    text_fits(identity.name) && text_fits(identity.email)
}

/// Whether every length and count of `config` fits its stored form. This
/// holds of every configuration in memory.
pub open spec fn config_fits(config: ConfigView) -> bool {
    &&& identity_fits(config.identity)
    &&& config.transport matches TransportView::Smtp { credential } ==> text_fits(credential)
    &&& config.squadmates.len() <= u64::MAX
    &&& forall|k: int| 0 <= k < config.squadmates.len() ==> identity_fits(#[trigger] config.squadmates[k])
}

/// Storing a list with one more entry appends that entry's bytes.
pub proof fn lemma_list_bytes_push(list: Seq<IdentityView>, last: IdentityView)
    ensures
        list_bytes(list.push(last)) == list_bytes(list) + identity_bytes(last),
    decreases list.len(),
{
    if list.len() == 0 {
        assert(list.push(last).drop_first() =~= Seq::empty());
        assert(list_bytes(Seq::<IdentityView>::empty()) =~= Seq::empty());
        assert(list_bytes(list.push(last)) =~= identity_bytes(last) + Seq::empty());
    } else {
        assert(list.push(last).drop_first() =~= list.drop_first().push(last));
        lemma_list_bytes_push(list.drop_first(), last);
        assert(list_bytes(list.push(last)) =~= list_bytes(list) + identity_bytes(last));
    }
}

fn put_bytes(out: &mut Vec<u8>, bytes: &[u8])
    ensures
        final(out)@ == old(out)@ + bytes@,
{
    let mut k: usize = 0;
    while k < bytes.len()
        invariant
            k <= bytes.len(),
            out@ == old(out)@ + bytes@.take(k as int),
        decreases bytes.len() - k,
    {
        out.push(bytes[k]);
        assert(bytes@.take(k + 1) =~= bytes@.take(k as int).push(bytes@[k as int]));
        k = k + 1;
    }
    assert(bytes@.take(k as int) =~= bytes@);
}

fn put_length(out: &mut Vec<u8>, n: usize)
    ensures
        final(out)@ == old(out)@ + length_bytes(n as nat),
{
    let mut stored = u64_to_le_bytes(n as u64);
    out.append(&mut stored);
}

fn put_text(out: &mut Vec<u8>, text: &str)
    ensures
        text_fits(text@),
        final(out)@ == old(out)@ + text_bytes(text@),
{
    let bytes = text.as_bytes();
    put_length(out, bytes.len());
    put_bytes(out, bytes);
    assert(out@ =~= old(out)@ + text_bytes(text@));
}

fn put_identity(out: &mut Vec<u8>, identity: &Identity)
    ensures
        identity_fits(identity@),
        final(out)@ == old(out)@ + identity_bytes(identity@),
{
    put_text(out, identity.name.as_str());
    put_text(out, identity.email.as_str());
    assert(out@ =~= old(out)@ + identity_bytes(identity@));
}

/// The stored form of `config`.
pub fn encode(config: &Config) -> (stored: Vec<u8>)
    ensures
        config_fits(config@),
        stored@ == config_bytes(config@),
{
    let mut out: Vec<u8> = Vec::new();
    out.push(0x52u8);
    out.push(0x43u8);
    out.push(0x50u8);
    out.push(0x01u8);
    assert(out@ =~= tag_bytes());
    match &config.transport {
        TransportConfig::Sendmail => {
            out.push(0u8);
            assert(out@ =~= tag_bytes() + transport_bytes(config@.transport));
        },
        TransportConfig::Smtp { credential } => {
            out.push(1u8);
            put_text(&mut out, credential.as_str());
            assert(out@ =~= tag_bytes() + transport_bytes(config@.transport));
        },
    }
    put_identity(&mut out, &config.identity);
    put_length(&mut out, config.squadmates.len());
    let ghost head = out@;
    let ghost list = config@.squadmates;
    assert(head =~= tag_bytes() + transport_bytes(config@.transport) + identity_bytes(
        config@.identity,
    ) + length_bytes(list.len()));
    let mut k: usize = 0;
    assert(list.take(0) =~= Seq::empty());
    while k < config.squadmates.len()
        invariant
            k <= config.squadmates.len(),
            list == identity_views(config.squadmates@),
            out@ == head + list_bytes(list.take(k as int)),
            forall|j: int| 0 <= j < k ==> identity_fits(#[trigger] list[j]),
        decreases config.squadmates.len() - k,
    {
        put_identity(&mut out, &config.squadmates[k]);
        proof {
            lemma_list_bytes_push(list.take(k as int), list[k as int]);
            assert(list.take(k + 1) =~= list.take(k as int).push(list[k as int]));
            assert(out@ =~= head + list_bytes(list.take(k + 1)));
        }
        k = k + 1;
    }
    assert(list.take(k as int) =~= list);
    out
}

/// The length or count that opens `bytes`, and what follows it.
pub open spec fn parse_length(bytes: Seq<u8>) -> Option<(nat, Seq<u8>)> {
    if bytes.len() >= 8 {
        Some((spec_u64_from_le_bytes(bytes.take(8)) as nat, bytes.skip(8)))
    } else {
        None
    }
}

/// The text that opens `bytes`, and what follows it.
pub open spec fn parse_text(bytes: Seq<u8>) -> Option<(Seq<char>, Seq<u8>)> {
    match parse_length(bytes) {
        Some((n, rest)) => if n <= rest.len() && valid_utf8(rest.take(n as int)) {
            Some((decode_utf8(rest.take(n as int)), rest.skip(n as int)))
        } else {
            None
        },
        None => None,
    }
}

/// The identity that opens `bytes`, and what follows it.
pub open spec fn parse_identity(bytes: Seq<u8>) -> Option<(IdentityView, Seq<u8>)> {
    match parse_text(bytes) {
        Some((name, rest)) => match parse_text(rest) {
            Some((email, rest)) => Some((IdentityView { name, email }, rest)),
            None => None,
        },
        None => None,
    }
}

/// The transport that opens `bytes`, and what follows it.
pub open spec fn parse_transport(bytes: Seq<u8>) -> Option<(TransportView, Seq<u8>)> {
    if bytes.len() == 0 {
        None
    } else if bytes[0] == 0u8 {
        Some((TransportView::Sendmail, bytes.skip(1)))
    } else if bytes[0] == 1u8 {
        match parse_text(bytes.skip(1)) {
            Some((credential, rest)) => Some((TransportView::Smtp { credential }, rest)),
            None => None,
        }
    } else {
        None
    }
}

/// `head` before the list of `tail`.
pub open spec fn joined(head: Seq<IdentityView>, tail: Option<(Seq<IdentityView>, Seq<u8>)>) -> Option<
    (Seq<IdentityView>, Seq<u8>),
> {
    match tail {
        Some((list, rest)) => Some((head + list, rest)),
        None => None,
    }
}

/// The `count` identities that open `bytes`, and what follows them.
pub open spec fn parse_list(bytes: Seq<u8>, count: nat) -> Option<(Seq<IdentityView>, Seq<u8>)>
    decreases count,
{
    if count == 0 {
        Some((Seq::empty(), bytes))
    } else {
        match parse_identity(bytes) {
            Some((first, rest)) => joined(seq![first], parse_list(rest, (count - 1) as nat)),
            None => None,
        }
    }
}

/// The configuration that opens `bytes`, and what follows it.
pub open spec fn parse_config(bytes: Seq<u8>) -> Option<(ConfigView, Seq<u8>)> {
    if bytes.len() >= 4 && bytes.take(4) == tag_bytes() {
        match parse_transport(bytes.skip(4)) {
            Some((transport, rest)) => match parse_identity(rest) {
                Some((identity, rest)) => match parse_length(rest) {
                    Some((count, rest)) => match parse_list(rest, count) {
                        Some((squadmates, rest)) => Some(
                            (ConfigView { identity, transport, squadmates }, rest),
                        ),
                        None => None,
                    },
                    None => None,
                },
                None => None,
            },
            None => None,
        }
    } else {
        None
    }
}

/// The configuration that `bytes` hold: they must be the stored form of a
/// well-formed configuration from the first byte to the last.
pub open spec fn stored_config(bytes: Seq<u8>) -> Option<ConfigView> {
    match parse_config(bytes) {
        Some((config, rest)) => if rest.len() == 0 && config.wf() {
            Some(config)
        } else {
            None
        },
        None => None,
    }
}

/// A stored length is read back, and what follows it is left over.
pub proof fn lemma_length_reads_back(n: nat, rest: Seq<u8>)
    requires
        n <= u64::MAX,
    ensures
        parse_length(length_bytes(n) + rest) == Some((n, rest)),
{
    vstd::bytes::lemma_auto_spec_u64_to_from_le_bytes();
    let bytes = length_bytes(n) + rest;
    assert(bytes.take(8) =~= length_bytes(n));
    assert(bytes.skip(8) =~= rest);
}

/// A stored text is read back, and what follows it is left over.
pub proof fn lemma_text_reads_back(text: Seq<char>, rest: Seq<u8>)
    requires
        text_fits(text),
    ensures
        parse_text(text_bytes(text) + rest) == Some((text, rest)),
{
    let encoded = encode_utf8(text);
    let n = encoded.len();
    lemma_length_reads_back(n, encoded + rest);
    assert(text_bytes(text) + rest =~= length_bytes(n) + (encoded + rest));
    assert((encoded + rest).take(n as int) =~= encoded);
    assert((encoded + rest).skip(n as int) =~= rest);
    vstd::utf8::encode_utf8_valid_utf8(text);
    vstd::utf8::encode_utf8_decode_utf8(text);
}

/// A stored identity is read back, and what follows it is left over.
pub proof fn lemma_identity_reads_back(identity: IdentityView, rest: Seq<u8>)
    requires
        identity_fits(identity),
    ensures
        parse_identity(identity_bytes(identity) + rest) == Some((identity, rest)),
{
    lemma_text_reads_back(identity.name, text_bytes(identity.email) + rest);
    lemma_text_reads_back(identity.email, rest);
    assert(identity_bytes(identity) + rest =~= text_bytes(identity.name) + (text_bytes(
        identity.email,
    ) + rest));
}

/// A stored transport is read back, and what follows it is left over.
pub proof fn lemma_transport_reads_back(transport: TransportView, rest: Seq<u8>)
    requires
        transport matches TransportView::Smtp { credential } ==> text_fits(credential),
    ensures
        parse_transport(transport_bytes(transport) + rest) == Some((transport, rest)),
{
    let bytes = transport_bytes(transport) + rest;
    match transport {
        TransportView::Sendmail => {
            assert(bytes.skip(1) =~= rest);
        },
        TransportView::Smtp { credential } => {
            lemma_text_reads_back(credential, rest);
            assert(bytes.skip(1) =~= text_bytes(credential) + rest);
        },
    }
}

/// A stored list is read back, and what follows it is left over.
pub proof fn lemma_list_reads_back(list: Seq<IdentityView>, rest: Seq<u8>)
    requires
        forall|k: int| 0 <= k < list.len() ==> identity_fits(#[trigger] list[k]),
    ensures
        parse_list(list_bytes(list) + rest, list.len()) == Some((list, rest)),
    decreases list.len(),
{
    if list.len() == 0 {
        assert(list_bytes(list) + rest =~= rest);
        assert(list =~= Seq::empty());
    } else {
        let tail = list.drop_first();
        assert(forall|k: int| 0 <= k < tail.len() ==> identity_fits(#[trigger] tail[k])) by {
            assert forall|k: int| 0 <= k < tail.len() implies identity_fits(#[trigger] tail[k]) by {
                assert(tail[k] == list[k + 1]);
            }
        }
        lemma_list_reads_back(tail, rest);
        lemma_identity_reads_back(list.first(), list_bytes(tail) + rest);
        assert(list_bytes(list) + rest =~= identity_bytes(list.first()) + (list_bytes(tail)
            + rest));
        assert(seq![list.first()] + tail =~= list);
    }
}

/// A stored configuration is read back, and what follows it is left over.
pub proof fn lemma_config_reads_back(config: ConfigView, rest: Seq<u8>)
    requires
        config_fits(config),
    ensures
        parse_config(config_bytes(config) + rest) == Some((config, rest)),
{
    let bytes = config_bytes(config) + rest;
    let after_count = list_bytes(config.squadmates) + rest;
    let after_identity = length_bytes(config.squadmates.len()) + after_count;
    let after_transport = identity_bytes(config.identity) + after_identity;
    let after_tag = transport_bytes(config.transport) + after_transport;
    assert(bytes =~= tag_bytes() + after_tag);
    assert(bytes.take(4) =~= tag_bytes());
    assert(bytes.skip(4) =~= after_tag);
    lemma_transport_reads_back(config.transport, after_transport);
    lemma_identity_reads_back(config.identity, after_identity);
    lemma_length_reads_back(config.squadmates.len(), after_count);
    lemma_list_reads_back(config.squadmates, rest);
}

/// Writing a configuration and reading the bytes back gives the same
/// configuration, field for field and with the squadmates in their order.
pub proof fn lemma_stored_config_reads_back(config: ConfigView)
    requires
        config.wf(),
        config_fits(config),
    ensures
        stored_config(config_bytes(config)) == Some(config),
{
    lemma_config_reads_back(config, Seq::empty());
    assert(config_bytes(config) + Seq::<u8>::empty() =~= config_bytes(config));
}

/// A length that was read is the stored form of what was read.
pub proof fn lemma_read_length_is_stored(bytes: Seq<u8>)
    ensures
        match parse_length(bytes) {
            Some((n, rest)) => n <= u64::MAX && bytes == length_bytes(n) + rest,
            None => true,
        },
{
    if parse_length(bytes) is Some {
        vstd::bytes::lemma_auto_spec_u64_to_from_le_bytes();
        assert(bytes =~= bytes.take(8) + bytes.skip(8));
    }
}

/// A text that was read is the stored form of what was read.
pub proof fn lemma_read_text_is_stored(bytes: Seq<u8>)
    ensures
        match parse_text(bytes) {
            Some((text, rest)) => text_fits(text) && bytes == text_bytes(text) + rest,
            None => true,
        },
{
    if parse_text(bytes) is Some {
        lemma_read_length_is_stored(bytes);
        let (n, rest) = parse_length(bytes)->0;
        let encoded = rest.take(n as int);
        vstd::utf8::decode_utf8_encode_utf8(encoded);
        assert(rest =~= encoded + rest.skip(n as int));
        assert(bytes =~= text_bytes(decode_utf8(encoded)) + rest.skip(n as int));
    }
}

/// An identity that was read is the stored form of what was read.
pub proof fn lemma_read_identity_is_stored(bytes: Seq<u8>)
    ensures
        match parse_identity(bytes) {
            Some((identity, rest)) => identity_fits(identity) && bytes == identity_bytes(identity)
                + rest,
            None => true,
        },
{
    if parse_identity(bytes) is Some {
        lemma_read_text_is_stored(bytes);
        let (name, rest) = parse_text(bytes)->0;
        lemma_read_text_is_stored(rest);
        let (email, last) = parse_text(rest)->0;
        assert(bytes =~= identity_bytes(IdentityView { name, email }) + last);
    }
}

/// A transport that was read is the stored form of what was read.
pub proof fn lemma_read_transport_is_stored(bytes: Seq<u8>)
    ensures
        match parse_transport(bytes) {
            Some((transport, rest)) => {
                &&& transport matches TransportView::Smtp { credential } ==> text_fits(credential)
                &&& bytes == transport_bytes(transport) + rest
            },
            None => true,
        },
{
    if parse_transport(bytes) is Some {
        assert(bytes =~= seq![bytes[0]] + bytes.skip(1));
        if bytes[0] == 1u8 {
            lemma_read_text_is_stored(bytes.skip(1));
            let (credential, rest) = parse_text(bytes.skip(1))->0;
            assert(bytes =~= transport_bytes(TransportView::Smtp { credential }) + rest);
        }
    }
}

/// A list that was read is the stored form of what was read.
pub proof fn lemma_read_list_is_stored(bytes: Seq<u8>, count: nat)
    ensures
        match parse_list(bytes, count) {
            Some((list, rest)) => {
                &&& list.len() == count
                &&& forall|k: int| 0 <= k < count ==> identity_fits(#[trigger] list[k])
                &&& bytes == list_bytes(list) + rest
            },
            None => true,
        },
    decreases count,
{
    if parse_list(bytes, count) is None {
    } else if count == 0 {
        assert(list_bytes(Seq::<IdentityView>::empty()) + bytes =~= bytes);
    } else {
        lemma_read_identity_is_stored(bytes);
        let (first, rest) = parse_identity(bytes)->0;
        lemma_read_list_is_stored(rest, (count - 1) as nat);
        let (tail, last) = parse_list(rest, (count - 1) as nat)->0;
        let list = seq![first] + tail;
        assert(list.drop_first() =~= tail);
        assert(bytes =~= list_bytes(list) + last);
        assert forall|k: int| 0 <= k < count implies identity_fits(#[trigger] list[k]) by {
            if k > 0 {
                assert(list[k] == tail[k - 1]);
            }
        }
    }
}

/// A configuration that was read is the stored form of what was read.
pub proof fn lemma_read_prefix_is_stored(bytes: Seq<u8>)
    ensures
        match parse_config(bytes) {
            Some((config, rest)) => config_fits(config) && bytes == config_bytes(config) + rest,
            None => true,
        },
{
    if parse_config(bytes) is Some {
        let b0 = bytes.skip(4);
        assert(bytes == tag_bytes() + b0) by {
            assert(bytes =~= bytes.take(4) + b0);
        }
        lemma_read_transport_is_stored(b0);
        let (transport, b1) = parse_transport(b0)->0;
        lemma_read_identity_is_stored(b1);
        let (identity, b2) = parse_identity(b1)->0;
        lemma_read_length_is_stored(b2);
        let (count, b3) = parse_length(b2)->0;
        lemma_read_list_is_stored(b3, count);
        let (squadmates, b4) = parse_list(b3, count)->0;
        let config = ConfigView { identity, transport, squadmates };
        let tr = transport_bytes(transport);
        let id = identity_bytes(identity);
        let len = length_bytes(count);
        let list = list_bytes(squadmates);
        assert(bytes == tag_bytes() + (tr + (id + (len + (list + b4)))));
        lemma_concat_assoc(len, list, b4);
        lemma_concat_assoc(id, len + list, b4);
        lemma_concat_assoc(id, len, list);
        lemma_concat_assoc(tr, id + len + list, b4);
        lemma_concat_assoc(tr, id + len, list);
        lemma_concat_assoc(tr, id, len);
        lemma_concat_assoc(tag_bytes(), tr + id + len + list, b4);
        lemma_concat_assoc(tag_bytes(), tr + id + len, list);
        lemma_concat_assoc(tag_bytes(), tr + id, len);
        lemma_concat_assoc(tag_bytes(), tr, id);
    }
}

proof fn lemma_concat_assoc(a: Seq<u8>, b: Seq<u8>, c: Seq<u8>)
    ensures
        a + (b + c) == a + b + c,
{
    assert(a + (b + c) =~= a + b + c);
}

/// Bytes that read as a configuration are exactly the stored form of that
/// configuration, which is well-formed.
pub proof fn lemma_read_config_is_stored(bytes: Seq<u8>)
    ensures
        match stored_config(bytes) {
            Some(config) => config.wf() && config_fits(config) && bytes == config_bytes(config),
            None => true,
        },
{
    if stored_config(bytes) is Some {
        lemma_read_prefix_is_stored(bytes);
        let (config, rest) = parse_config(bytes)->0;
        assert(rest =~= Seq::empty());
        assert(config_bytes(config) + rest =~= config_bytes(config));
    }
}

/// Reading is the inverse of writing: bytes read as a configuration
/// exactly when they are the stored form of that configuration and it is
/// well-formed.
pub proof fn lemma_stored_config_is_inverse(bytes: Seq<u8>, config: ConfigView)
    ensures
        stored_config(bytes) == Some(config) <==> config.wf() && config_fits(config) && bytes
            == config_bytes(config),
{
    lemma_read_config_is_stored(bytes);
    if config.wf() && config_fits(config) {
        lemma_stored_config_reads_back(config);
    }
}

/// `String::from_utf8` of std: the text that `bytes` encode when they are
/// valid UTF-8, and nothing when they are not.
#[verifier::external_body]
fn text_from_utf8(bytes: Vec<u8>) -> (text: Option<String>)
    ensures
        match text {
            Some(s) => valid_utf8(bytes@) && s@ == decode_utf8(bytes@),
            None => !valid_utf8(bytes@),
        },
{
    String::from_utf8(bytes).ok()
}

fn take_length(bytes: &[u8], at: usize) -> (taken: Option<(u64, usize)>)
    requires
        at <= bytes@.len(),
    ensures
        match taken {
            Some((n, next)) => at <= next <= bytes@.len() && parse_length(bytes@.skip(at as int))
                == Some((n as nat, bytes@.skip(next as int))),
            None => parse_length(bytes@.skip(at as int)) is None,
        },
{
    if bytes.len() - at < 8 {
        None
    } else {
        let n = u64_from_le_bytes(slice_subrange(bytes, at, at + 8));
        proof {
            assert(bytes@.skip(at as int).take(8) =~= bytes@.subrange(at as int, at + 8));
            assert(bytes@.skip(at as int).skip(8) =~= bytes@.skip(at + 8));
        }
        Some((n, at + 8))
    }
}

fn take_text(bytes: &[u8], at: usize) -> (taken: Option<(String, usize)>)
    requires
        at <= bytes@.len(),
    ensures
        match taken {
            Some((text, next)) => at <= next <= bytes@.len() && parse_text(bytes@.skip(at as int))
                == Some((text@, bytes@.skip(next as int))),
            None => parse_text(bytes@.skip(at as int)) is None,
        },
{
    match take_length(bytes, at) {
        None => None,
        Some((n, start)) => {
            if n > (bytes.len() - start) as u64 {
                None
            } else {
                let end = start + n as usize;
                let encoded = slice_to_vec(slice_subrange(bytes, start, end));
                proof {
                    assert(bytes@.skip(start as int).take(n as int) =~= bytes@.subrange(
                        start as int,
                        end as int,
                    ));
                    assert(bytes@.skip(start as int).skip(n as int) =~= bytes@.skip(end as int));
                }
                match text_from_utf8(encoded) {
                    Some(text) => Some((text, end)),
                    None => None,
                }
            }
        },
    }
}

fn take_identity(bytes: &[u8], at: usize) -> (taken: Option<(Identity, usize)>)
    requires
        at <= bytes@.len(),
    ensures
        match taken {
            Some((identity, next)) => at <= next <= bytes@.len() && parse_identity(
                bytes@.skip(at as int),
            ) == Some((identity@, bytes@.skip(next as int))),
            None => parse_identity(bytes@.skip(at as int)) is None,
        },
{
    match take_text(bytes, at) {
        None => None,
        Some((name, mid)) => match take_text(bytes, mid) {
            None => None,
            Some((email, next)) => Some((Identity { name, email }, next)),
        },
    }
}

fn take_transport(bytes: &[u8], at: usize) -> (taken: Option<(TransportConfig, usize)>)
    requires
        at <= bytes@.len(),
    ensures
        match taken {
            Some((transport, next)) => at <= next <= bytes@.len() && parse_transport(
                bytes@.skip(at as int),
            ) == Some((transport@, bytes@.skip(next as int))),
            None => parse_transport(bytes@.skip(at as int)) is None,
        },
{
    if at == bytes.len() {
        return None;
    }
    let kind = bytes[at];
    assert(bytes@.skip(at as int)[0] == kind);
    assert(bytes@.skip(at as int).skip(1) =~= bytes@.skip(at + 1));
    if kind == 0u8 {
        Some((TransportConfig::Sendmail, at + 1))
    } else if kind == 1u8 {
        match take_text(bytes, at + 1) {
            None => None,
            Some((credential, next)) => Some((TransportConfig::Smtp { credential }, next)),
        }
    } else {
        None
    }
}

fn take_list(bytes: &[u8], at: usize, count: u64) -> (taken: Option<(Vec<Identity>, usize)>)
    requires
        at <= bytes@.len(),
    ensures
        match taken {
            Some((list, next)) => at <= next <= bytes@.len() && parse_list(
                bytes@.skip(at as int),
                count as nat,
            ) == Some((identity_views(list@), bytes@.skip(next as int))),
            None => parse_list(bytes@.skip(at as int), count as nat) is None,
        },
{
    let mut list: Vec<Identity> = Vec::new();
    let mut pos = at;
    let mut k: u64 = 0;
    let ghost whole = parse_list(bytes@.skip(at as int), count as nat);
    assert(identity_views(list@) =~= Seq::empty());
    assert(whole == joined(identity_views(list@), whole)) by {
        if whole is Some {
            let (all, last) = whole->0;
            assert(Seq::<IdentityView>::empty() + all =~= all);
        }
    }
    while k < count
        invariant
            k <= count,
            at <= pos <= bytes@.len(),
            whole == parse_list(bytes@.skip(at as int), count as nat),
            whole == joined(
                identity_views(list@),
                parse_list(bytes@.skip(pos as int), (count - k) as nat),
            ),
        decreases count - k,
    {
        let ghost head = identity_views(list@);
        let ghost here = bytes@.skip(pos as int);
        match take_identity(bytes, pos) {
            None => {
                assert(parse_list(here, (count - k) as nat) is None);
                return None;
            },
            Some((identity, next)) => {
                proof {
                    let after = parse_list(bytes@.skip(next as int), (count - k - 1) as nat);
                    assert(parse_list(here, (count - k) as nat) == joined(seq![identity@], after));
                    if after is Some {
                        let (tail, last) = after->0;
                        assert(head + (seq![identity@] + tail) =~= head.push(identity@) + tail);
                    }
                }
                list.push(identity);
                assert(identity_views(list@) =~= head.push(identity@));
                pos = next;
                k = k + 1;
            },
        }
    }
    assert(identity_views(list@) + Seq::<IdentityView>::empty() =~= identity_views(list@));
    Some((list, pos))
}

/// Reads a configuration back from its stored form. Bytes that are not
/// the stored form of a well-formed configuration are corrupt.
pub fn decode(bytes: &[u8]) -> (read: Result<Config, Error>)
    ensures
        match read {
            Ok(config) => stored_config(bytes@) == Some(config@),
            Err(e) => e == Error::Corrupt && stored_config(bytes@) is None,
        },
{
    if bytes.len() < 4 || bytes[0] != 0x52u8 || bytes[1] != 0x43u8 || bytes[2] != 0x50u8
        || bytes[3] != 0x01u8 {
        assert(bytes@.len() >= 4 ==> bytes@.take(4) != tag_bytes()) by {
            if bytes@.len() >= 4 && bytes@.take(4) == tag_bytes() {
                assert(bytes@.take(4)[0] == 0x52u8);
                assert(bytes@.take(4)[1] == 0x43u8);
                assert(bytes@.take(4)[2] == 0x50u8);
                assert(bytes@.take(4)[3] == 0x01u8);
            }
        }
        return Err(Error::Corrupt);
    }
    assert(bytes@.take(4) =~= tag_bytes());
    let (transport, at) = match take_transport(bytes, 4) {
        Some(taken) => taken,
        None => {
            return Err(Error::Corrupt);
        },
    };
    let (identity, at) = match take_identity(bytes, at) {
        Some(taken) => taken,
        None => {
            return Err(Error::Corrupt);
        },
    };
    let (count, at) = match take_length(bytes, at) {
        Some(taken) => taken,
        None => {
            return Err(Error::Corrupt);
        },
    };
    let (squadmates, at) = match take_list(bytes, at, count) {
        Some(taken) => taken,
        None => {
            return Err(Error::Corrupt);
        },
    };
    let config = Config { identity, transport, squadmates };
    assert(parse_config(bytes@) == Some((config@, bytes@.skip(at as int))));
    if at == bytes.len() && config.is_well_formed() {
        Ok(config)
    } else {
        Err(Error::Corrupt)
    }
}

} // verus!
