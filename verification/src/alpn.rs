//! The application protocols that a client offers, and those that a front is
//! for.
use vstd::prelude::*;

use crate::bytes;
use crate::bytes::{insert_ordered, same_bytes, same_contents};
use crate::text;
use vstd::utf8;

verus! {

/// Which offers a front is for.
#[derive(Debug, PartialEq, Eq)]
pub enum AlpnMatcher {
    /// All of them.
    Any,
    /// Those with one of these protocols, which are in order, each of them once.
    OneOf(Vec<Vec<u8>>),
}

impl AlpnMatcher {
    /// What every matcher meets.
    pub open spec fn wf(self) -> bool {
        match self {
            AlpnMatcher::Any => true,
            AlpnMatcher::OneOf(protocols) => bytes::ordered(bytes::contents(protocols@)),
        }
    }

    /// The protocols that the front is for; none in particular where it is for
    /// all.
    pub open spec fn protocols(self) -> Option<Set<Seq<u8>>> {
        match self {
            AlpnMatcher::Any => None,
            AlpnMatcher::OneOf(protocols) => Some(bytes::contents(protocols@).to_set()),
        }
    }

    /// The matcher for some protocols.
    pub fn one_of(protocols: Vec<Vec<u8>>) -> (matcher: AlpnMatcher)
        ensures
            matcher.wf(),
            matcher.protocols() == Some(bytes::contents(protocols@).to_set()),
    {
        let ghost all = bytes::contents(protocols@);
        let mut rest = protocols;
        let mut set: Vec<Vec<u8>> = Vec::new();
        assert(all.skip(all.len() as int).to_set() =~= Set::<Seq<u8>>::empty());
        assert(bytes::contents(set@).to_set() =~= Set::<Seq<u8>>::empty());
        while rest.len() > 0
            invariant
                rest@.len() <= all.len(),
                bytes::contents(rest@) == all.take(rest@.len() as int),
                bytes::ordered(bytes::contents(set@)),
                bytes::contents(set@).to_set() == all.skip(rest@.len() as int).to_set(),
            decreases rest@.len(),
        {
            let ghost n = rest@.len() as int;
            let ghost before = rest@;
            let item = rest.pop();
            if let Some(item) = item {
                proof {
                    assert(bytes::contents(before)[n - 1] == all[n - 1]);
                    assert(item@ == all[n - 1]);
                    assert(bytes::contents(rest@) =~= all.take(n - 1));
                    lemma_skip_set(all, n - 1);
                }
                insert_ordered(&mut set, item);
            }
        }
        assert(all.skip(0) =~= all);
        AlpnMatcher::OneOf(set)
    }

    /// Whether two matchers are for the same offers.
    pub fn same(&self, other: &AlpnMatcher) -> (same: bool)
        requires
            self.wf(),
            other.wf(),
        ensures
            same == (self.protocols() == other.protocols()),
    {
        match (self, other) {
            (AlpnMatcher::Any, AlpnMatcher::Any) => true,
            (AlpnMatcher::OneOf(a), AlpnMatcher::OneOf(b)) => {
                proof {
                    if bytes::contents(a@).to_set() == bytes::contents(b@).to_set() {
                        bytes::lemma_ordered_unique(bytes::contents(a@), bytes::contents(b@));
                    }
                }
                same_contents(a, b)
            },
            _ => false,
        }
    }
}

proof fn lemma_skip_set(all: Seq<Seq<u8>>, n: int)
    requires
        0 <= n < all.len(),
    ensures
        all.skip(n).to_set() == all.skip(n + 1).to_set().insert(all[n]),
{
    let longer = all.skip(n);
    let shorter = all.skip(n + 1);
    assert forall|x: Seq<u8>| #[trigger]
        longer.to_set().contains(x) <==> shorter.to_set().insert(all[n]).contains(x) by {
        if longer.to_set().contains(x) {
            let k = choose|k: int| 0 <= k < longer.len() && longer[k] == x;
            if k > 0 {
                assert(shorter[k - 1] == x);
            }
        }
        if shorter.to_set().contains(x) {
            let k = choose|k: int| 0 <= k < shorter.len() && shorter[k] == x;
            assert(longer[k + 1] == x);
        }
        assert(longer[0] == all[n]);
    }
    assert(longer.to_set() =~= shorter.to_set().insert(all[n]));
}

/// What a client that offers protocols, the one that it prefers first, is told
/// to prefer in the access log, if that is one of the two that are known there.
pub fn known_alpn_label(offered: &[Vec<u8>]) -> (label: Option<&'static str>)
    ensures
        label is Some <==> offered@.len() > 0 && (offered@[0]@ == h2() || offered@[0]@ == http_1_1()),
        label matches Some(l) ==> l@ == if offered@[0]@ == h2() {
            "h2"@
        } else {
            "http/1.1"@
        },
{
    if offered.len() == 0 {
        return None;
    }
    let first: &[u8] = offered[0].as_slice();
    if same_bytes(first, "h2".as_bytes()) {
        Some("h2")
    } else if same_bytes(first, "http/1.1".as_bytes()) {
        Some("http/1.1")
    } else {
        None
    }
}

/// The name of HTTP/2.
pub open spec fn h2() -> Seq<u8> {
    utf8::encode_utf8("h2"@)
}

/// The name of HTTP/1.1.
pub open spec fn http_1_1() -> Seq<u8> {
    utf8::encode_utf8("http/1.1"@)
}

/// What `String::from_utf8_lossy` makes of bytes.
pub uninterp spec fn lossy_text(bytes: Seq<u8>) -> Seq<char>;

/// Calls `String::from_utf8_lossy`. Where the bytes are valid UTF-8 the result
/// is the text that they encode; what it is otherwise depends on the bytes
/// alone.
#[verifier::external_body]
fn text_of_bytes(bytes: &[u8]) -> (s: String)
    ensures
        s@ == lossy_text(bytes@),
        utf8::valid_utf8(bytes@) ==> s@ == utf8::decode_utf8(bytes@),
{
    String::from_utf8_lossy(bytes).into_owned()
}

/// Whether `names` are the protocols of `matcher` as texts, in the same order.
pub open spec fn are_protocols_of(names: Seq<String>, matcher: AlpnMatcher) -> bool {
    match matcher {
        AlpnMatcher::Any => names.len() == 0,
        AlpnMatcher::OneOf(protocols) => {
            &&& names.len() == protocols@.len()
            &&& forall|i: int|
                0 <= i < names.len() ==> (#[trigger] names[i])@ == lossy_text(protocols@[i]@)
            &&& forall|i: int|
                0 <= i < names.len() && utf8::valid_utf8(protocols@[i]@) ==> (
                #[trigger] names[i])@ == utf8::decode_utf8(protocols@[i]@)
        },
    }
}

/// The protocols of a matcher as texts.
pub fn alpn_matcher_protocols(matcher: &AlpnMatcher) -> (names: Vec<String>)
    ensures
        are_protocols_of(names@, *matcher),
{
    let mut names: Vec<String> = Vec::new();
    match matcher {
        AlpnMatcher::Any => {},
        AlpnMatcher::OneOf(protocols) => {
            let mut i: usize = 0;
            while i < protocols.len()
                invariant
                    i <= protocols@.len(),
                    names@.len() == i,
                    forall|j: int|
                        0 <= j < i ==> (#[trigger] names@[j])@ == lossy_text(protocols@[j]@),
                    forall|j: int|
                        0 <= j < i && utf8::valid_utf8(protocols@[j]@) ==> (
                        #[trigger] names@[j])@ == utf8::decode_utf8(protocols@[j]@),
                decreases protocols@.len() - i,
            {
                names.push(text_of_bytes(protocols[i].as_slice()));
                i += 1;
            }
        },
    }
    names
}

/// The protocols that a front with these is for; all, if there are none.
pub open spec fn matched_protocols(alpn: Seq<String>) -> Option<Set<Seq<u8>>> {
    if alpn.len() == 0 {
        None
    } else {
        Some(bytes::encoded(alpn).to_set())
    }
}

/// The key under which the routes of a server name are kept.
pub open spec fn route_key(sni: Seq<char>) -> Seq<u8> {
    utf8::encode_utf8(text::lower_text(sni))
}

/// The key under which a front's route is kept, and the offers it is for.
pub fn route_key_and_matcher(sni: &str, alpn: Vec<String>) -> (r: (Vec<u8>, AlpnMatcher))
    ensures
        r.0@ == route_key(sni@),
        r.1.wf(),
        r.1.protocols() == matched_protocols(alpn@),
{
    let key = text::to_ascii_lowercase(sni).as_str().as_bytes_vec();
    if alpn.len() == 0 {
        return (key, AlpnMatcher::Any);
    }
    let mut protocols: Vec<Vec<u8>> = Vec::new();
    let mut i: usize = 0;
    while i < alpn.len()
        invariant
            i <= alpn@.len(),
            protocols@.len() == i,
            forall|j: int|
                0 <= j < i ==> (#[trigger] protocols@[j])@ == utf8::encode_utf8(alpn@[j]@),
        decreases alpn@.len() - i,
    {
        protocols.push(alpn[i].as_str().as_bytes_vec());
        i += 1;
    }
    assert(bytes::contents(protocols@) =~= bytes::encoded(alpn@));
    (key, AlpnMatcher::one_of(protocols))
}

/// A front that names no protocols is for all of them; any other is for those
/// that it names, and for no others.
pub proof fn law_a_front_is_for_the_protocols_it_names(alpn: Seq<String>, protocol: Seq<u8>)
    ensures
        matched_protocols(alpn) is None <==> alpn.len() == 0,
        alpn.len() > 0 ==> (matched_protocols(alpn)->0.contains(protocol) <==> exists|i: int|
            0 <= i < alpn.len() && utf8::encode_utf8((#[trigger] alpn[i])@) == protocol),
{
    let names = bytes::encoded(alpn);
    if names.to_set().contains(protocol) {
        let i = names.index_of(protocol);
        assert(utf8::encode_utf8(alpn[i]@) == names[i]);
    }
    assert forall|i: int|
        0 <= i < alpn.len() && utf8::encode_utf8((#[trigger] alpn[i])@)
            == protocol implies names.to_set().contains(protocol) by {
        assert(names[i] == protocol);
    }
}

/// Server names are routed by whatever their case.
pub proof fn law_names_are_routed_by_whatever_their_case(a: Seq<char>, b: Seq<char>)
    requires
        a.len() == b.len(),
        forall|i: int|
            0 <= i < a.len() ==> #[trigger] a[i] == b[i] || text::lower_char(a[i])
                == text::lower_char(b[i]),
    ensures
        route_key(a) == route_key(b),
{
    assert(text::lower_text(a) =~= text::lower_text(b));
}

/// A matcher for everything names no protocols, and any other those that it
/// holds.
pub proof fn law_a_matcher_names_what_it_holds(matcher: AlpnMatcher, protocol: Seq<u8>)
    ensures
        matcher is Any <==> matcher.protocols() is None,
        matcher matches AlpnMatcher::OneOf(held) ==> (matcher.protocols()->0.contains(protocol)
            <==> exists|i: int| 0 <= i < held@.len() && (#[trigger] held@[i])@ == protocol),
{
    if let AlpnMatcher::OneOf(held) = matcher {
        let names = bytes::contents(held@);
        if names.to_set().contains(protocol) {
            let i = names.index_of(protocol);
            assert(held@[i]@ == names[i]);
        }
        assert forall|i: int| 0 <= i < held@.len() && (#[trigger] held@[i])@
            == protocol implies names.to_set().contains(protocol) by {
            assert(names[i] == protocol);
        }
    }
}

/// The names of a matcher are as many as the protocols that it holds, in their
/// order, and each says a protocol that is text as it is; a matcher for
/// everything has none.
pub proof fn law_the_names_of_a_matcher_are_its_protocols(
    names: Seq<String>,
    matcher: AlpnMatcher,
    i: int,
)
    requires
        are_protocols_of(names, matcher),
    ensures
        matcher is Any ==> names.len() == 0,
        matcher matches AlpnMatcher::OneOf(held) ==> names.len() == held@.len(),
        matcher matches AlpnMatcher::OneOf(held) ==> (0 <= i < names.len() && utf8::valid_utf8(
            held@[i]@,
        ) ==> names[i]@ == utf8::decode_utf8(held@[i]@)),
{
}

} // verus!
