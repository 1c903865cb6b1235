//! Laws of authorities, ports, IPv6 addresses and the text of URLs.

use crate::authority;
use crate::authority::PortPolicy;
use crate::ipv6;
use crate::laws::response;
use crate::laws::texts;
use crate::number;
use crate::text;
use crate::url_text;
use vstd::prelude::*;

verus! {

/// What stands behind a host: nothing, or a colon and the port.
pub open spec fn port_text(port: Option<Seq<char>>) -> Seq<char> {
    match port {
        Some(digits) => seq![':'] + digits,
        None => Seq::empty(),
    }
}

/// Whether a text is a host with or without a port: a name that is not empty, without colons and
/// brackets, or an IPv6 address in brackets.
pub open spec fn is_host_and_port(raw: Seq<char>, host: Seq<char>, port: Option<Seq<char>>) -> bool {
    &&& raw == host + port_text(port)
    &&& {
        ||| host.len() > 0 && !host.contains(':') && !host.contains('[') && !host.contains(']')
        ||| exists|address: Seq<char>|
            host == #[trigger] (seq!['['] + address + seq![']']) && ipv6::is_ipv6(address)
                && !address.contains(']')
    }
    &&& port matches Some(digits) ==> is_port(digits)
}

/// Whether a text is the number of a port.
pub open spec fn is_port(digits: Seq<char>) -> bool {
    &&& digits.len() > 0
    &&& forall|i: int| 0 <= i < digits.len() ==> '0' <= #[trigger] digits[i] && digits[i] <= '9'
    &&& 1 <= number::value_of(digits) <= 65535
}

/// A port is accepted exactly where it is written in digits alone and from 1 to 65535.
pub proof fn lemma_accepted_port(raw: Seq<char>)
    ensures
        authority::port_number(raw) is Ok <==> is_port(raw),
        authority::port_number(raw) matches Ok(n) ==> n == number::value_of(raw),
{
    if number::all_digits(raw) {
        assert forall|i: int| 0 <= i < raw.len() implies '0' <= #[trigger] raw[i] && raw[i] <= '9' by {
            assert(text::is_digit(raw[i]));
        }
    }
}

proof fn lemma_no_colon_no_ipv6(s: Seq<char>)
    requires
        !s.contains(':'),
    ensures
        !ipv6::is_ipv6(s),
        text::split_pair(s, ':', ':') is None,
{
    texts::lemma_split_is_at_the_first(s, ':');
    lemma_few_colons_no_pair(s);
}

proof fn lemma_few_colons_no_pair(s: Seq<char>)
    requires
        forall|i: int, j: int| 0 <= i < j < s.len() ==> !(s[i] == ':' && s[j] == ':'),
    ensures
        text::split_pair(s, ':', ':') is None,
{
    texts::lemma_pair_split_is_at_the_first(s, ':', ':');
    assert forall|j: int| 0 <= j && j + 1 < s.len() implies s[j] != ':' || #[trigger] s[j + 1]
        != ':' by {
    }
}

proof fn lemma_name_and_digits(raw: Seq<char>, host: Seq<char>, digits: Seq<char>)
    requires
        raw == host + seq![':'] + digits,
        !host.contains(':'),
        !digits.contains(':'),
    ensures
        !ipv6::is_ipv6(raw),
        text::split_pair(raw, ':', ':') is None,
        text::split_last(raw, ':') == Some((host, digits)),
        text::split_once(raw, ':') == Some((host, digits)),
        !ipv6::is_ipv6(host),
{
    response::lemma_split_at(raw, ':', host, digits);
    lemma_no_colon_no_ipv6(host);
    texts::lemma_split_is_at_the_first(digits, ':');
    assert forall|i: int, j: int| 0 <= i < j < raw.len() implies !(raw[i] == ':' && raw[j]
        == ':') by {
        if raw[i] == ':' && raw[j] == ':' {
            if i < host.len() {
                assert(host[i] == ':');
            }
            if j > host.len() {
                assert(digits[j - host.len() - 1] == ':');
            }
        }
    }
    lemma_few_colons_no_pair(raw);
    let tail = ipv6::group_count(digits, true);
    assert(tail == Some(1nat) || tail == Some(2nat) || tail is None);
    assert(ipv6::group_count(raw, true) != Some(8nat));
    texts::lemma_split_is_at_the_last(raw, ':');
    assert(raw[host.len() as int] == ':');
    assert(raw.contains(':'));
    let (before, after) = text::split_last(raw, ':')->0;
    assert(raw[before.len() as int] == ':') by {
        assert((before + seq![':'] + after)[before.len() as int] == ':');
    }
    assert(before.len() == host.len()) by {
        if before.len() < host.len() {
            assert(!(raw[before.len() as int] == ':' && raw[host.len() as int] == ':'));
        } else if before.len() > host.len() {
            assert(!(raw[host.len() as int] == ':' && raw[before.len() as int] == ':'));
        }
    }
    assert(before =~= host) by {
        assert(before =~= raw.take(before.len() as int));
        assert(host =~= raw.take(host.len() as int));
    }
    assert(after =~= digits) by {
        assert(after =~= raw.skip(before.len() + 1 as int));
        assert(digits =~= raw.skip(host.len() + 1 as int));
    }
}

/// An authority is accepted exactly where it is a host, with a port where one is required, written
/// in printable ASCII without a user, a path, a query, a fragment, quotes and backslashes, and the
/// host that is parsed from it is not empty.
pub proof fn lemma_accepted_authority(
    raw: Seq<char>,
    policy: PortPolicy,
    parsed: core::result::Result<Seq<char>, Seq<char>>,
)
    ensures
        authority::authority_reason(raw, policy, parsed) is None <==> {
            &&& forall|i: int|
                0 <= i < raw.len() ==> '!' <= #[trigger] raw[i] && raw[i] <= '~' && raw[i] != '"'
                    && raw[i] != '\\' && raw[i] != '@' && raw[i] != '/' && raw[i] != '?' && raw[i]
                    != '#'
            &&& exists|host: Seq<char>, port: Option<Seq<char>>| #[trigger]
                is_host_and_port(raw, host, port) && (policy is Required ==> port is Some)
            &&& parsed matches Ok(host) && host.len() > 0
        },
{
    let plain = forall|i: int|
        0 <= i < raw.len() ==> '!' <= #[trigger] raw[i] && raw[i] <= '~' && raw[i] != '"' && raw[i]
            != '\\' && raw[i] != '@' && raw[i] != '/' && raw[i] != '?' && raw[i] != '#';
    assert(plain <==> authority::text_reason(raw) is None && !raw.contains('@') && !raw.contains('/')
        && !raw.contains('?') && !raw.contains('#')) by {
        lemma_plain_text(raw);
    }
    let fits = exists|host: Seq<char>, port: Option<Seq<char>>| #[trigger]
        is_host_and_port(raw, host, port) && (policy is Required ==> port is Some);
    let shaped = authority::bracket_reason(raw) is None && !authority::lacks_brackets(raw)
        && !authority::host_is_empty(raw) && (authority::port_of(raw) matches Some(port)
        ==> authority::port_number(port) is Ok) && (policy is Required ==> authority::port_of(raw)
        is Some);
    if shaped {
        lemma_shape_is_host_and_port(raw);
        let host = choose|host: Seq<char>| #[trigger]
            is_host_and_port(raw, host, authority::port_of(raw));
        assert(is_host_and_port(raw, host, authority::port_of(raw)));
    }
    if fits {
        let (host, port) = choose|host: Seq<char>, port: Option<Seq<char>>| #[trigger]
            is_host_and_port(raw, host, port) && (policy is Required ==> port is Some);
        lemma_host_and_port_is_shape(raw, host, port);
    }
    assert(shaped <==> fits);
}

proof fn lemma_plain_text(raw: Seq<char>)
    ensures
        (forall|i: int|
            0 <= i < raw.len() ==> '!' <= #[trigger] raw[i] && raw[i] <= '~' && raw[i] != '"'
                && raw[i] != '\\' && raw[i] != '@' && raw[i] != '/' && raw[i] != '?' && raw[i]
                != '#') <==> authority::text_reason(raw) is None && !raw.contains('@')
            && !raw.contains('/') && !raw.contains('?') && !raw.contains('#'),
{
    if authority::text_reason(raw) is None && !raw.contains('@') && !raw.contains('/')
        && !raw.contains('?') && !raw.contains('#') {
        assert forall|i: int| 0 <= i < raw.len() implies '!' <= #[trigger] raw[i] && raw[i] <= '~'
            && raw[i] != '"' && raw[i] != '\\' && raw[i] != '@' && raw[i] != '/' && raw[i] != '?'
            && raw[i] != '#' by {
            assert(raw.contains(raw[i]));
            assert(!authority::is_refused(raw[i]));
        }
    }
}

proof fn lemma_shape_is_host_and_port(raw: Seq<char>)
    requires
        authority::bracket_reason(raw) is None,
        !authority::lacks_brackets(raw),
        !authority::host_is_empty(raw),
        authority::port_of(raw) matches Some(port) ==> authority::port_number(port) is Ok,
    ensures
        exists|host: Seq<char>| #[trigger] is_host_and_port(raw, host, authority::port_of(raw)),
{
    let port = authority::port_of(raw);
    if port is Some {
        lemma_accepted_port(port->0);
    }
    if text::begins_with(raw, '[') {
        let inner = raw.skip(1);
        texts::lemma_split_is_at_the_first(inner, ']');
        let (address, suffix) = text::split_once(inner, ']')->0;
        let host = seq!['['] + address + seq![']'];
        assert(raw =~= host + suffix) by {
            assert(raw =~= seq!['['] + inner);
        }
        assert(suffix =~= port_text(port)) by {
            if suffix.len() > 0 {
                assert(suffix =~= seq![':'] + suffix.skip(1));
            }
        }
        assert(is_host_and_port(raw, host, port));
    } else {
        texts::lemma_split_is_at_the_first(raw, ':');
        match text::split_once(raw, ':') {
            Some((host, digits)) => {
                assert(raw =~= host + port_text(port));
                assert forall|i: int| 0 <= i < host.len() implies host[i] != '[' && host[i] != ']' by {
                    assert(raw[i] == host[i]);
                    assert(raw.contains(raw[i]));
                }
                assert(is_host_and_port(raw, host, port));
            },
            None => {
                assert(raw =~= raw + port_text(port));
                assert(is_host_and_port(raw, raw, port));
            },
        }
    }
}

proof fn lemma_host_and_port_is_shape(raw: Seq<char>, host: Seq<char>, port: Option<Seq<char>>)
    requires
        is_host_and_port(raw, host, port),
    ensures
        authority::bracket_reason(raw) is None,
        !authority::lacks_brackets(raw),
        !authority::host_is_empty(raw),
        authority::port_of(raw) == port,
        port matches Some(digits) ==> authority::port_number(digits) is Ok,
{
    if port is Some {
        lemma_accepted_port(port->0);
        let digits = port->0;
        assert forall|i: int| 0 <= i < digits.len() implies digits[i] != ':' && digits[i] != '['
            && digits[i] != ']' by {
        }
    }
    if host.len() > 0 && !host.contains(':') && !host.contains('[') && !host.contains(']') {
        assert(raw[0] == host[0]);
        assert(host.contains(host[0]));
        assert(raw[0] != '[');
        match port {
            Some(digits) => {
                assert(raw =~= host + seq![':'] + digits);
                assert(!digits.contains(':'));
                lemma_name_and_digits(raw, host, digits);
                assert(!raw.contains('[') && !raw.contains(']')) by {
                    assert forall|i: int| 0 <= i < raw.len() implies raw[i] != '[' && raw[i]
                        != ']' by {
                        if i < host.len() {
                            assert(raw[i] == host[i]);
                            assert(host.contains(host[i]));
                        } else if i > host.len() {
                            assert(raw[i] == digits[i - host.len() - 1]);
                        }
                    }
                }
            },
            None => {
                assert(raw =~= host);
                lemma_no_colon_no_ipv6(raw);
                texts::lemma_split_is_at_the_first(raw, ':');
                texts::lemma_split_is_at_the_last(raw, ':');
            },
        }
    } else {
        let address = choose|address: Seq<char>|
            host == #[trigger] (seq!['['] + address + seq![']']) && ipv6::is_ipv6(address)
                && !address.contains(']');
        let suffix = port_text(port);
        let inner = raw.skip(1);
        assert(raw[0] == '[');
        assert(inner =~= address + seq![']'] + suffix);
        response::lemma_split_at(inner, ']', address, suffix);
        assert(address.len() > 0) by {
            if address.len() == 0 {
                assert(!address.contains(':'));
                lemma_no_colon_no_ipv6(address);
            }
        }
        assert(inner[0] == address[0]);
        assert(address.contains(address[0]));
        if port is Some {
            assert(suffix.skip(1) =~= port->0);
        }
    }
}

/// Whether an authority has a host at all is told by how it begins.
pub proof fn lemma_host_comes_first(raw: Seq<char>)
    ensures
        authority::host_is_empty(raw) <==> {
            ||| raw.len() == 0
            ||| raw[0] == ':'
            ||| raw.len() > 1 && raw[0] == '[' && raw[1] == ']'
        },
{
    texts::lemma_split_is_at_the_first(raw, ':');
    if raw.len() > 0 && raw[0] != '[' {
        match text::split_once(raw, ':') {
            Some((host, port)) => {
                assert((host + seq![':'] + port)[host.len() as int] == ':');
                if host.len() > 0 {
                    assert(raw[0] == host[0]);
                    assert(host.contains(host[0]));
                }
            },
            None => {
                if raw[0] == ':' {
                    assert(raw.contains(':'));
                }
            },
        }
    }
}

/// What an authority of a URL must be: a host, and behind its first colon or its bracket a port.
pub open spec fn is_url_authority(authority: Seq<char>) -> bool {
    &&& !authority.contains('@')
    &&& authority.len() > 0 && authority[0] != ':'
    &&& !(authority.len() > 1 && authority[0] == '[' && authority[1] == ']')
    &&& !authority::lacks_brackets(authority)
    &&& authority[0] != '[' ==> forall|host: Seq<char>, port: Seq<char>|
        authority == #[trigger] (host + seq![':'] + port) && !host.contains(':') ==> is_port(port)
    &&& authority[0] == '[' ==> forall|host: Seq<char>, port: Seq<char>|
        authority == #[trigger] (seq!['['] + host + seq![']'] + seq![':'] + port) && !host.contains(']')
            ==> is_port(port)
}

proof fn lemma_url_authority(authority: Seq<char>)
    ensures
        is_url_authority(authority) <==> !authority.contains('@') && !authority::lacks_brackets(
            authority,
        ) && !authority::host_is_empty(authority) && (authority::port_of(authority) matches Some(
            port,
        ) ==> authority::port_number(port) is Ok),
{
    lemma_host_comes_first(authority);
    if authority.len() > 0 && authority[0] != '[' {
        texts::lemma_split_is_at_the_first(authority, ':');
        assert forall|host: Seq<char>, port: Seq<char>|
            authority == #[trigger] (host + seq![':'] + port) && !host.contains(':') implies
            authority::port_of(authority) == Some(port) by {
            response::lemma_split_at(authority, ':', host, port);
        }
        if let Some((host, port)) = text::split_once(authority, ':') {
            assert(authority == host + seq![':'] + port);
            lemma_accepted_port(port);
        }
    } else if authority.len() > 0 {
        let inner = authority.skip(1);
        texts::lemma_split_is_at_the_first(inner, ']');
        assert forall|host: Seq<char>, port: Seq<char>|
            authority == #[trigger] (seq!['['] + host + seq![']'] + seq![':'] + port) && !host.contains(
                ']',
            ) implies authority::port_of(authority) == Some(port) by {
            assert(inner =~= host + seq![']'] + (seq![':'] + port));
            response::lemma_split_at(inner, ']', host, seq![':'] + port);
            assert((seq![':'] + port).skip(1) =~= port);
        }
        if let Some((host, suffix)) = text::split_once(inner, ']') {
            if text::begins_with(suffix, ':') {
                let port = suffix.skip(1);
                assert(authority =~= seq!['['] + host + seq![']'] + seq![':'] + port) by {
                    assert(authority =~= seq!['['] + inner);
                    assert(suffix =~= seq![':'] + port);
                }
                lemma_accepted_port(port);
            }
        }
    }
}

proof fn lemma_authority_ends(s: Seq<char>)
    ensures
        0 <= url_text::authority_len(s) <= s.len(),
        forall|i: int|
            0 <= i < url_text::authority_len(s) ==> #[trigger] s[i] != '/' && s[i] != '?' && s[i]
                != '#',
        url_text::authority_len(s) < s.len() ==> ({
            let c = s[url_text::authority_len(s)];
            c == '/' || c == '?' || c == '#'
        }),
    decreases s.len(),
{
    if s.len() > 0 && s[0] != '/' && s[0] != '?' && s[0] != '#' {
        let t = s.skip(1);
        lemma_authority_ends(t);
        assert forall|i: int| 0 <= i < url_text::authority_len(s) implies #[trigger] s[i] != '/'
            && s[i] != '?' && s[i] != '#' by {
            if i > 0 {
                assert(t[i - 1] == s[i]);
            }
        }
    }
}

/// Whether a text is an authority and what follows it: nothing, or a path, a query or a fragment.
pub open spec fn begins_with_authority(s: Seq<char>, authority: Seq<char>) -> bool {
    &&& authority.len() <= s.len()
    &&& authority == s.take(authority.len() as int)
    &&& forall|i: int|
        0 <= i < authority.len() ==> #[trigger] authority[i] != '/' && authority[i] != '?'
            && authority[i] != '#'
    &&& authority.len() < s.len() ==> s[authority.len() as int] == '/' || s[authority.len() as int]
        == '?' || s[authority.len() as int] == '#'
}

/// The text of a URL is accepted exactly where it has no white space, no control character, no
/// backslash and no broken escape, and, where it is an http or https one, has two slashes behind the
/// scheme and then an authority without a user, with a host, and with a port that can be one. Else
/// the configuration is at fault.
pub proof fn lemma_accepted_url_text(raw: Seq<char>)
    ensures
        url_text::url_text_fault(raw) is None <==> {
            &&& forall|i: int|
                0 <= i < raw.len() ==> !text::is_white(#[trigger] raw[i]) && !text::is_ctl(raw[i])
                    && raw[i] != '\\'
            &&& forall|i: int|
                0 <= i < raw.len() && #[trigger] raw[i] == '%' ==> i + 2 < raw.len()
                    && text::is_hex(raw[i + 1]) && text::is_hex(raw[i + 2])
            &&& forall|scheme: Seq<char>, rest: Seq<char>|
                raw == #[trigger] (scheme + seq![':'] + rest) && (text::lower_text(scheme)
                    == "http"@ || text::lower_text(scheme) == "https"@) ==> {
                    &&& rest.len() >= 2 && rest[0] == '/' && rest[1] == '/'
                    &&& forall|authority: Seq<char>| #[trigger]
                        begins_with_authority(rest.skip(2), authority) ==> is_url_authority(
                            authority,
                        )
                }
        },
        url_text::url_text_fault(raw) matches Some(e) ==> e is InvalidConfig,
{
    let clean = forall|i: int|
        0 <= i < raw.len() ==> !text::is_white(#[trigger] raw[i]) && !text::is_ctl(raw[i]) && raw[i]
            != '\\';
    assert(clean <==> !url_text::has_blank(raw) && !raw.contains('\\')) by {
        if !url_text::has_blank(raw) && !raw.contains('\\') {
            assert forall|i: int| 0 <= i < raw.len() implies !text::is_white(#[trigger] raw[i])
                && !text::is_ctl(raw[i]) && raw[i] != '\\' by {
                assert(raw.contains(raw[i]));
            }
        }
    }
    texts::lemma_split_is_at_the_first(raw, ':');
    assert forall|scheme: Seq<char>, rest: Seq<char>|
        raw == #[trigger] (scheme + seq![':'] + rest) && (text::lower_text(scheme) == "http"@
            || text::lower_text(scheme) == "https"@) implies text::split_once(raw, ':') == Some(
        (scheme, rest),
    ) && url_text::is_http_scheme(scheme) by {
        lemma_http_scheme(scheme);
        response::lemma_split_at(raw, ':', scheme, rest);
    }
    if let Some((scheme, rest)) = text::split_once(raw, ':') {
        assert(raw == scheme + seq![':'] + rest);
        lemma_http_scheme(scheme);
        reveal_strlit("//");
        assert(text::begins(rest, "//"@) <==> rest.len() >= 2 && rest[0] == '/' && rest[1] == '/') by {
            if rest.len() >= 2 {
                assert(rest.take(2)[0] == rest[0] && rest.take(2)[1] == rest[1]);
                if rest[0] == '/' && rest[1] == '/' {
                    assert(rest.take(2) =~= "//"@);
                }
            }
        }
        if rest.len() >= 2 {
            let s = rest.skip(2);
            let n = url_text::authority_len(s);
            lemma_authority_ends(s);
            let authority = s.take(n);
            assert(begins_with_authority(s, authority));
            lemma_url_authority(authority);
            assert forall|other: Seq<char>| #[trigger] begins_with_authority(s, other) implies other
                == authority by {
                if other.len() < n {
                    assert(s[other.len() as int] == authority[other.len() as int]);
                } else if other.len() > n {
                    assert(other[n] == s[n]);
                }
            }
        }
    }
}

proof fn lemma_http_scheme(scheme: Seq<char>)
    ensures
        url_text::is_http_scheme(scheme) <==> text::lower_text(scheme) == "http"@
            || text::lower_text(scheme) == "https"@,
        url_text::is_http_scheme(scheme) ==> !scheme.contains(':'),
{
    reveal_strlit("http");
    reveal_strlit("https");
    reveal_strlit("HTTP");
    reveal_strlit("HTTPS");
    texts::lemma_case_does_not_matter(scheme);
    assert(text::lower_text("HTTP"@) =~= "http"@);
    assert(text::lower_text("HTTPS"@) =~= "https"@);
    assert(text::upper_text("http"@) =~= "HTTP"@);
    assert(text::upper_text("https"@) =~= "HTTPS"@);
    if scheme.contains(':') {
        let i = choose|i: int| 0 <= i < scheme.len() && scheme[i] == ':';
        assert(text::upper_text(scheme)[i] == ':');
    }
}

/// Groups with a colon between each two.
pub open spec fn with_colons(groups: Seq<Seq<char>>) -> Seq<char>
    decreases groups.len(),
{
    if groups.len() == 0 {
        Seq::empty()
    } else if groups.len() == 1 {
        groups[0]
    } else {
        groups[0] + seq![':'] + with_colons(groups.skip(1))
    }
}

/// Whether a text is one to four hexadecimal digits.
pub open spec fn is_group(s: Seq<char>) -> bool {
    1 <= s.len() <= 4 && forall|i: int|
        0 <= i < s.len() ==> ('0' <= #[trigger] s[i] <= '9' || 'a' <= s[i] <= 'f' || 'A' <= s[i]
            <= 'F')
}

proof fn lemma_groups_count(groups: Seq<Seq<char>>, v4: bool)
    requires
        groups.len() > 0,
        forall|i: int| 0 <= i < groups.len() ==> is_group(#[trigger] groups[i]),
    ensures
        ipv6::group_count(with_colons(groups), v4) == Some(groups.len()),
        with_colons(groups).len() > 0,
        with_colons(groups)[0] != ':',
        with_colons(groups).last() != ':',
        text::split_pair(with_colons(groups), ':', ':') is None,
        forall|j: int|
            0 <= j && j + 1 < with_colons(groups).len() ==> with_colons(groups)[j] != ':'
                || #[trigger] with_colons(groups)[j + 1] != ':',
    decreases groups.len(),
{
    let s = with_colons(groups);
    let first = groups[0];
    assert(is_group(first));
    assert(ipv6::is_hextet(first));
    assert(!first.contains(':'));
    if groups.len() == 1 {
        texts::lemma_split_is_at_the_first(s, ':');
    } else {
        let rest = groups.skip(1);
        assert forall|i: int| 0 <= i < rest.len() implies is_group(#[trigger] rest[i]) by {
            assert(rest[i] == groups[i + 1]);
        }
        lemma_groups_count(rest, v4);
        let tail = with_colons(rest);
        response::lemma_split_at(s, ':', first, tail);
        assert(s.last() == tail.last());
        assert forall|j: int| 0 <= j && j + 1 < s.len() implies s[j] != ':' || #[trigger] s[j + 1]
            != ':' by {
            if j < first.len() {
                assert(s[j] == first[j]);
                assert(first.contains(first[j]));
            } else if j == first.len() {
                assert(s[j + 1] == tail[0]);
            } else {
                let k = j - first.len() - 1;
                assert(s[j] == tail[k] && s[j + 1] == tail[k + 1]);
            }
        }
    }
    texts::lemma_pair_split_is_at_the_first(s, ':', ':');
}

/// Groups of hexadecimal digits with colons between are an IPv6 address exactly where there are
/// eight of them.
pub proof fn lemma_eight_groups(groups: Seq<Seq<char>>)
    requires
        groups.len() > 0,
        forall|i: int| 0 <= i < groups.len() ==> is_group(#[trigger] groups[i]),
    ensures
        ipv6::is_ipv6(with_colons(groups)) <==> groups.len() == 8,
{
    lemma_groups_count(groups, true);
}

/// Two colons stand for one or more groups of zeros: with them, an IPv6 address has at most seven
/// groups before and after them together.
pub proof fn lemma_shortened_groups(before: Seq<Seq<char>>, after: Seq<Seq<char>>)
    requires
        forall|i: int| 0 <= i < before.len() ==> is_group(#[trigger] before[i]),
        forall|i: int| 0 <= i < after.len() ==> is_group(#[trigger] after[i]),
    ensures
        ipv6::is_ipv6(with_colons(before) + seq![':', ':'] + with_colons(after)) <==> before.len()
            + after.len() <= 7,
{
    let head = with_colons(before);
    let tail = with_colons(after);
    let s = head + seq![':', ':'] + tail;
    if before.len() > 0 {
        lemma_groups_count(before, false);
    }
    if after.len() > 0 {
        lemma_groups_count(after, true);
    }
    let n = head.len() as int;
    assert forall|j: int| 0 <= j < n && j + 1 < s.len() implies s[j] != ':' || #[trigger] s[j + 1]
        != ':' by {
        assert(s[j] == head[j]);
        if j + 1 < n {
            assert(s[j + 1] == head[j + 1]);
        } else {
            assert(head[j] == head.last());
        }
    }
    assert(s[n] == ':' && s[n + 1] == ':');
    text::lemma_find_pair_at(s, ':', ':', n);
    assert(s.take(n) =~= head);
    assert(s.skip(n + 2) =~= tail);
}

proof fn lemma_digits_shape(n: nat)
    ensures
        number::digits(n).len() <= 3 <==> n <= 999,
        number::digits(n)[0] == '0' <==> n == 0,
        n == 0 ==> number::digits(n).len() == 1,
        number::digits(n).len() >= 1,
        n > 9 ==> number::digits(n).len() == number::digits(n / 10).len() + 1,
        n <= 9 ==> number::digits(n).len() == 1,
        n > 99 ==> number::digits(n).len() >= 3,
        n > 999 ==> number::digits(n).len() >= 4,
        n <= 99 ==> number::digits(n).len() <= 2,
        !number::digits(n).contains('.') && !number::digits(n).contains(':'),
    decreases n,
{
    number::lemma_digits_read_back(n);
    let s = number::digits(n);
    assert forall|i: int| 0 <= i < s.len() implies s[i] != '.' && s[i] != ':' by {
        assert(text::is_digit(s[i]));
    }
    if n >= 10 {
        lemma_digits_shape(n / 10);
        assert(s[0] == number::digits(n / 10)[0]);
    }
}

/// Four numbers with points between them can end an IPv6 address exactly where none is above 255;
/// and a number there has no zeros in front of it.
pub proof fn lemma_ipv4_at_the_end(a: nat, b: nat, c: nat, d: nat)
    ensures
        ipv6::is_ipv6(
            seq![':', ':'] + (number::digits(a) + seq!['.'] + (number::digits(b) + seq!['.'] + (
            number::digits(c) + seq!['.'] + number::digits(d)))),
        ) <==> a <= 255 && b <= 255 && c <= 255 && d <= 255,
        forall|s: Seq<char>| s.len() > 1 && #[trigger] s[0] == '0' ==> !ipv6::is_octet(s),
{
    lemma_digits_shape(a);
    lemma_digits_shape(b);
    lemma_digits_shape(c);
    lemma_digits_shape(d);
    number::lemma_digits_read_back(a);
    number::lemma_digits_read_back(b);
    number::lemma_digits_read_back(c);
    number::lemma_digits_read_back(d);
    let s3 = number::digits(c) + seq!['.'] + number::digits(d);
    let s2 = number::digits(b) + seq!['.'] + s3;
    let s1 = number::digits(a) + seq!['.'] + s2;
    response::lemma_split_at(s3, '.', number::digits(c), number::digits(d));
    response::lemma_split_at(s2, '.', number::digits(b), s3);
    response::lemma_split_at(s1, '.', number::digits(a), s2);
    assert(ipv6::are_octets(s3, 2) <==> ipv6::is_octet(number::digits(c)) && ipv6::are_octets(
        number::digits(d),
        1,
    ));
    assert(ipv6::are_octets(s2, 3) <==> ipv6::is_octet(number::digits(b)) && ipv6::are_octets(s3, 2));
    assert(ipv6::are_octets(s1, 4) <==> ipv6::is_octet(number::digits(a)) && ipv6::are_octets(s2, 3));
    assert(ipv6::are_octets(number::digits(d), 1) <==> ipv6::is_octet(number::digits(d)));
    let whole = seq![':', ':'] + s1;
    text::lemma_find_pair_at(whole, ':', ':', 0);
    assert(whole.take(0) =~= Seq::empty());
    assert(whole.skip(2) =~= s1);
    assert(s1[number::digits(a).len() as int] == '.');
    assert(!ipv6::is_hextet(s1)) by {
        assert(!text::is_hex(s1[number::digits(a).len() as int]));
    }
    assert(!s1.contains(':')) by {
        assert forall|i: int| 0 <= i < s1.len() implies s1[i] != ':' by {
            let p = number::digits(a).len() as int;
            let q = p + 1 + number::digits(b).len();
            let r = q + 1 + number::digits(c).len();
            if i < p {
                assert(s1[i] == number::digits(a)[i]);
            } else if p < i < q {
                assert(s1[i] == number::digits(b)[i - p - 1]);
            } else if q < i < r {
                assert(s1[i] == number::digits(c)[i - q - 1]);
            } else if i > r {
                assert(s1[i] == number::digits(d)[i - r - 1]);
            }
        }
    }
    texts::lemma_split_is_at_the_first(s1, ':');
}

} // verus!
