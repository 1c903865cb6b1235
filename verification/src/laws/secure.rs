//! Laws of the TLS options and of the files that they name.

use crate::cli::TlsArgs;
use crate::ipv6;
use crate::tls;
use crate::tls::{BundledRoots, KeyView};
use vstd::prelude::*;

verus! {

/// A name for the server is used as it is where it has no brackets, and without them where they are
/// around an IPv6 address. Else it cannot be used.
pub proof fn lemma_server_name_without_brackets(raw: Seq<char>, name: Seq<char>)
    ensures
        tls::plain_server_name(raw) == Some(name) <==> {
            ||| raw == name && !name.contains('[') && !name.contains(']')
            ||| raw == seq!['['] + name + seq![']'] && ipv6::is_ipv6(name)
        },
{
    let framed = seq!['['] + name + seq![']'];
    if raw == framed && ipv6::is_ipv6(name) {
        assert(framed.skip(1) =~= name + seq![']']);
        assert(framed.skip(1).drop_last() =~= name);
        assert(framed[0] == '[');
        assert(framed.contains('['));
    }
    if raw.len() > 0 && raw[0] == '[' {
        let inner = raw.skip(1);
        if tls::plain_server_name(raw) == Some(name) {
            assert(inner =~= name + seq![']']);
            assert(raw =~= framed);
        }
        if raw == name {
            assert(name.contains('['));
        }
    } else if raw == framed {
        assert(framed[0] == '[');
    }
}

/// The options are sound exactly where the name of the server can be used, a certificate and a key
/// come together, no file has an empty path, a CA file is not given where nothing is verified, and
/// there is something to trust unless nothing is verified. Else the configuration is at fault.
pub proof fn lemma_sound_options(tls: TlsArgs, roots: BundledRoots)
    ensures
        tls::options_fault(tls, roots) is None <==> {
            &&& tls.server_name matches Some(raw) ==> (tls::plain_server_name(raw@) matches Some(name)
                && tls::parsed_server_name(name) is Ok)
            &&& tls.cert is Some <==> tls.key is Some
            &&& tls.ca matches Some(path) ==> path@.len() > 0 && !tls.insecure_skip_verify
            &&& tls.cert matches Some(path) ==> path@.len() > 0
            &&& tls.key matches Some(path) ==> path@.len() > 0
            &&& tls.insecure_skip_verify || tls.ca is Some || roots is Included
        },
        tls::options_fault(tls, roots) matches Some(e) ==> e is InvalidConfig,
{
}

/// There are TLS options exactly where one of them is given.
pub proof fn lemma_any_option(tls: TlsArgs)
    ensures
        !tls::any_option(tls) <==> tls.ca is None && tls.cert is None && tls.key is None
            && tls.server_name is None && !tls.insecure_skip_verify,
{
}

proof fn lemma_anchors(certs: Seq<Seq<u8>>)
    ensures
        tls::first_anchor_error(certs) is None <==> forall|i: int|
            0 <= i < certs.len() ==> tls::anchor_error(#[trigger] certs[i]) is None,
    decreases certs.len(),
{
    if certs.len() > 0 {
        let rest = certs.skip(1);
        lemma_anchors(rest);
        if forall|i: int| 0 <= i < rest.len() ==> tls::anchor_error(#[trigger] rest[i]) is None {
            assert forall|i: int| 0 <= i < certs.len() && tls::anchor_error(certs[0]) is None implies
                tls::anchor_error(#[trigger] certs[i]) is None by {
                if i > 0 {
                    assert(rest[i - 1] == certs[i]);
                }
            }
        }
        if forall|i: int| 0 <= i < certs.len() ==> tls::anchor_error(#[trigger] certs[i]) is None {
            assert forall|i: int| 0 <= i < rest.len() implies tls::anchor_error(#[trigger] rest[i])
                is None by {
                assert(certs[i + 1] == rest[i]);
            }
        }
    }
}

/// A CA file is used exactly where it can be read, holds a certificate, and every certificate in it
/// can be trusted. A certificate file is used exactly where it can be read and holds one, and a key
/// file where it can be read and holds a key. Else the configuration is at fault.
pub proof fn lemma_usable_files(
    label: Seq<char>,
    path: Seq<u8>,
    certs: core::result::Result<Seq<Seq<u8>>, Seq<char>>,
    key: core::result::Result<Option<KeyView>, Seq<char>>,
)
    ensures
        tls::ca_fault(path, certs) is None <==> {
            &&& certs matches Ok(list)
            &&& list.len() > 0
            &&& forall|i: int| 0 <= i < list.len() ==> tls::anchor_error(#[trigger] list[i]) is None
        },
        tls::ca_fault(path, certs) matches Some(e) ==> e is InvalidConfig,
        tls::certificates_fault(label, path, certs) is None <==> (certs matches Ok(list)
            && list.len() > 0),
        tls::certificates_fault(label, path, certs) matches Some(e) ==> e is InvalidConfig,
        tls::key_fault(path, key) is None <==> (key matches Ok(found) && found is Some),
        tls::key_fault(path, key) matches Some(e) ==> e is InvalidConfig,
{
    if certs is Ok {
        lemma_anchors(certs->Ok_0);
    }
}

} // verus!
