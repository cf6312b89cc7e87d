//! The keys under which the access-log tags of TCP fronts are kept.
//!
//! One listener may carry many fronts, for different server names and
//! application protocols, each with tags of its own. So the key of such a front
//! is made of all that tells it from the others. Names of servers and of
//! protocols are opaque here: no character is free to separate them, so each goes
//! behind its length.
use vstd::prelude::*;

use crate::alpn;
use crate::alpn::AlpnMatcher;
use crate::bytes;
use crate::bytes::insert_ordered_text;
use crate::text;
use vstd::utf8;

verus! {

/// What tells a TCP front from the others.
#[derive(Debug)]
pub enum TcpFrontendTagsKey {
    /// The only front of the listener at an address.
    Address(String),
    /// A front for a server name, in lower case, and for protocols, in order,
    /// each of them once.
    Sni { address: String, sni: String, alpn: Vec<String> },
}

/// The texts that strings hold.
pub open spec fn texts(v: Seq<String>) -> Seq<Seq<char>> {
    v.map_values(|s: String| s@)
}

/// The byte strings that texts are written in.
pub open spec fn encodings(s: Seq<Seq<char>>) -> Seq<Seq<u8>> {
    s.map_values(|t: Seq<char>| utf8::encode_utf8(t))
}

/// Whether `c` holds what `names` holds, in order, each of it once.
pub open spec fn is_canonical(c: Seq<Seq<char>>, names: Seq<Seq<char>>) -> bool {
    bytes::ordered(encodings(c)) && encodings(c).to_set() == encodings(names).to_set()
}

/// What `names` holds, in order, each of it once.
pub open spec fn canonical(names: Seq<Seq<char>>) -> Seq<Seq<char>> {
    choose|c: Seq<Seq<char>>| is_canonical(c, names)
}

/// One name, behind the number of bytes that it takes.
pub open spec fn protocol_text(protocol: Seq<char>) -> Seq<char> {
    text::decimal_text(text::byte_len(protocol) as int) + ":"@ + protocol
}

/// Names, one behind the other.
pub open spec fn protocols_text(protocols: Seq<Seq<char>>) -> Seq<char>
    decreases protocols.len(),
{
    if protocols.len() == 0 {
        Seq::empty()
    } else {
        protocols_text(protocols.drop_last()) + protocol_text(protocols.last())
    }
}

/// The key of a front, from a server name in lower case and protocols in order.
pub open spec fn key_text(
    address: Seq<char>,
    sni: Seq<char>,
    protocols: Seq<Seq<char>>,
) -> Seq<char> {
    protocol_text(address) + "|"@ + protocols_text(seq![sni] + protocols)
}

/// The key of a front for a server name and protocols, as they were given.
pub open spec fn sni_key_text(
    address: Seq<char>,
    sni: Seq<char>,
    alpn: Seq<Seq<char>>,
) -> Seq<char> {
    key_text(address, text::lower_text(sni), canonical(alpn))
}

/// Appends a name, behind the number of bytes that it takes.
fn append_name(key: &mut String, name: &str)
    ensures
        final(key)@ == old(key)@ + protocol_text(name@),
{
    let length: usize = name.len();
    key.append(text::decimal(length as u64).as_str());
    key.append(":");
    key.append(name);
    assert(key@ =~= old(key)@ + protocol_text(name@));
}

impl TcpFrontendTagsKey {
    /// The key as a text.
    pub open spec fn text(self) -> Seq<char> {
        match self {
            TcpFrontendTagsKey::Address(address) => address@,
            TcpFrontendTagsKey::Sni { address, sni, alpn } => key_text(
                address@,
                sni@,
                texts(alpn@),
            ),
        }
    }

    /// The key of a front for a server name and protocols.
    pub fn sni(address: &String, sni: &str, alpn: &Vec<String>) -> (key: TcpFrontendTagsKey)
        ensures
            key matches TcpFrontendTagsKey::Sni { address: a, sni: s, alpn: p } && a@ == address@
                && s@ == text::lower_text(sni@) && texts(p@) == canonical(texts(alpn@)),
    {
        let mut protocols: Vec<String> = Vec::new();
        let mut i: usize = 0;
        assert(bytes::encoded(alpn@.take(0)).to_set() =~= Set::<Seq<u8>>::empty());
        assert(bytes::encoded(protocols@).to_set() =~= Set::<Seq<u8>>::empty());
        while i < alpn.len()
            invariant
                i <= alpn@.len(),
                bytes::ordered(bytes::encoded(protocols@)),
                bytes::encoded(protocols@).to_set() == bytes::encoded(
                    alpn@.take(i as int),
                ).to_set(),
            decreases alpn@.len() - i,
        {
            proof {
                let shorter = bytes::encoded(alpn@.take(i as int));
                let longer = bytes::encoded(alpn@.take(i + 1));
                assert(longer =~= shorter.push(utf8::encode_utf8(alpn@[i as int]@)));
                lemma_push_set(shorter, utf8::encode_utf8(alpn@[i as int]@));
            }
            insert_ordered_text(&mut protocols, alpn[i].clone());
            i += 1;
        }
        proof {
            assert(alpn@.take(alpn@.len() as int) =~= alpn@);
            assert(encodings(texts(protocols@)) =~= bytes::encoded(protocols@));
            assert(encodings(texts(alpn@)) =~= bytes::encoded(alpn@));
            lemma_canonical(texts(protocols@), texts(alpn@));
        }
        TcpFrontendTagsKey::Sni {
            address: address.clone(),
            sni: text::to_ascii_lowercase(sni),
            alpn: protocols,
        }
    }

    /// The key as a text.
    pub fn to_text(&self) -> (key: String)
        ensures
            key@ == self.text(),
    {
        match self {
            TcpFrontendTagsKey::Address(address) => address.clone(),
            TcpFrontendTagsKey::Sni { address, sni, alpn } => {
                let mut key = String::new();
                append_name(&mut key, address.as_str());
                key.append("|");
                let ghost prefix = key@;
                append_name(&mut key, sni.as_str());
                let ghost names = seq![sni@] + texts(alpn@);
                let mut i: usize = 0;
                proof {
                    reveal_with_fuel(protocols_text, 2);
                    assert(prefix =~= protocol_text(address@) + "|"@);
                    assert(names.take(1).drop_last() =~= Seq::<Seq<char>>::empty());
                    assert(protocols_text(names.take(1)) =~= protocol_text(sni@));
                    assert(key@ =~= prefix + protocols_text(names.take(1)));
                }
                while i < alpn.len()
                    invariant
                        i <= alpn@.len(),
                        names == seq![sni@] + texts(alpn@),
                        key@ == prefix + protocols_text(names.take(i + 1)),
                    decreases alpn@.len() - i,
                {
                    let protocol = alpn[i].as_str();
                    proof {
                        let next = names.take(i + 2);
                        assert(next.drop_last() =~= names.take(i + 1));
                        assert(next.last() == protocol@);
                    }
                    let ghost before = key@;
                    append_name(&mut key, protocol);
                    assert(before + protocol_text(protocol@) =~= prefix + protocols_text(
                        names.take(i + 2),
                    ));
                    i += 1;
                }
                assert(names.take(names.len() as int) =~= names);
                key
            },
        }
    }
}

/// The key of a front for a server name and protocols, as a text.
pub fn sni_tags_key(address: &String, sni: &str, alpn: &Vec<String>) -> (key: String)
    ensures
        key@ == sni_key_text(address@, sni@, texts(alpn@)),
{
    TcpFrontendTagsKey::sni(address, sni, alpn).to_text()
}

proof fn lemma_push_set(s: Seq<Seq<u8>>, x: Seq<u8>)
    ensures
        s.push(x).to_set() == s.to_set().insert(x),
{
    let longer = s.push(x);
    assert forall|y: Seq<u8>| #[trigger]
        longer.to_set().contains(y) <==> s.to_set().insert(x).contains(y) by {
        if longer.to_set().contains(y) {
            let k = choose|k: int| 0 <= k < longer.len() && longer[k] == y;
            if k < s.len() {
                assert(s[k] == y);
            }
        }
        if s.to_set().contains(y) {
            let k = choose|k: int| 0 <= k < s.len() && s[k] == y;
            assert(longer[k] == y);
        }
        assert(longer[s.len() as int] == x);
    }
    assert(longer.to_set() =~= s.to_set().insert(x));
}

/// Texts that are written in the same bytes are the same.
proof fn lemma_encoding_injective(a: Seq<char>, b: Seq<char>)
    requires
        utf8::encode_utf8(a) == utf8::encode_utf8(b),
    ensures
        a == b,
{
    utf8::encode_utf8_decode_utf8(a);
    utf8::encode_utf8_decode_utf8(b);
}

/// There is one way only to put names in order, each of them once.
pub proof fn lemma_canonical(c: Seq<Seq<char>>, names: Seq<Seq<char>>)
    requires
        is_canonical(c, names),
    ensures
        canonical(names) == c,
{
    let d = canonical(names);
    assert(is_canonical(d, names));
    bytes::lemma_ordered_unique(encodings(c), encodings(d));
    assert(c.len() == d.len()) by {
        assert(encodings(c).len() == c.len());
        assert(encodings(d).len() == d.len());
    }
    assert forall|i: int| 0 <= i < c.len() implies c[i] == d[i] by {
        assert(encodings(c)[i] == encodings(d)[i]);
        lemma_encoding_injective(c[i], d[i]);
    }
    assert(c =~= d);
}

proof fn lemma_lower_twice(s: Seq<char>)
    ensures
        text::lower_text(text::lower_text(s)) == text::lower_text(s),
{
    assert(text::lower_text(text::lower_text(s)) =~= text::lower_text(s));
}

/// The key that is rebuilt from the route that a session took is the one under
/// which the front of that route keeps its tags, whatever the case of the server
/// name was and in whatever order the protocols were given: `names` are the
/// protocols of the route's matcher, and the route is kept under the server name
/// in lower case.
pub proof fn law_route_time_key_is_add_time_key(
    address: Seq<char>,
    sni: Seq<char>,
    alpn: Seq<String>,
    matcher: AlpnMatcher,
    names: Seq<String>,
)
    requires
        matcher.wf(),
        matcher.protocols() == alpn::matched_protocols(alpn),
        alpn::are_protocols_of(names, matcher),
    ensures
        sni_key_text(address, text::lower_text(sni), texts(names)) == sni_key_text(
            address,
            sni,
            texts(alpn),
        ),
{
    lemma_lower_twice(sni);
    assert(encodings(texts(alpn)) =~= bytes::encoded(alpn));
    match matcher {
        AlpnMatcher::Any => {
            assert(texts(names) =~= texts(alpn));
        },
        AlpnMatcher::OneOf(protocols) => {
            let held = bytes::contents(protocols@);
            assert forall|i: int| 0 <= i < names.len() implies encodings(texts(names))[i]
                == held[i] by {
                assert(held.to_set().contains(held[i]));
                assert(bytes::encoded(alpn).to_set().contains(held[i]));
                let k = choose|k: int|
                    0 <= k < bytes::encoded(alpn).len() && bytes::encoded(alpn)[k] == held[i];
                assert(held[i] == utf8::encode_utf8(alpn[k]@));
                utf8::encode_utf8_valid_utf8(alpn[k]@);
                utf8::encode_utf8_decode_utf8(alpn[k]@);
                assert(held[i] == protocols@[i]@);
                assert(names[i]@ == alpn[k]@);
            }
            assert(encodings(texts(names)) =~= held);
            lemma_canonical(texts(names), texts(names));
            lemma_canonical(texts(names), texts(alpn));
        },
    }
}

/// Whether a character is a decimal digit.
pub open spec fn is_digit(c: char) -> bool {
    '0' <= c <= '9'
}

/// A number in decimal digits holds nothing but digits, one of them at least.
proof fn lemma_decimal_digits(n: int)
    requires
        n >= 0,
    ensures
        text::decimal_text(n).len() > 0,
        forall|i: int|
            0 <= i < text::decimal_text(n).len() ==> is_digit(#[trigger] text::decimal_text(n)[i]),
    decreases n,
{
    if n >= 10 {
        lemma_decimal_digits(n / 10);
    }
}

/// The number that decimal digits write.
spec fn decimal_number(s: Seq<char>) -> int
    decreases s.len(),
{
    if s.len() == 0 {
        0
    } else {
        decimal_number(s.drop_last()) * 10 + (s.last() as int - 48)
    }
}

proof fn lemma_decimal_number(n: int)
    requires
        n >= 0,
    ensures
        decimal_number(text::decimal_text(n)) == n,
    decreases n,
{
    let t = text::decimal_text(n);
    if n >= 10 {
        lemma_decimal_number(n / 10);
        lemma_decimal_digits(n / 10);
        assert(t.drop_last() =~= text::decimal_text(n / 10));
        assert(t.last() == text::digit_char(n % 10));
    } else {
        assert(t.drop_last() =~= Seq::<char>::empty());
        assert(t.last() == text::digit_char(n));
        assert(decimal_number(t.drop_last()) == 0);
    }
}

/// How many bytes more a longer text takes.
proof fn lemma_longer_takes_more(a: Seq<char>, b: Seq<char>)
    requires
        a.len() < b.len(),
        b.take(a.len() as int) == a,
    ensures
        utf8::encode_utf8(a).len() < utf8::encode_utf8(b).len(),
    decreases a.len(),
{
    if a.len() == 0 {
        assert(b.len() > 0);
        assert(utf8::encode_utf8(b).len() > 0);
    } else {
        assert(a[0] == b[0]) by {
            assert(b.take(a.len() as int)[0] == b[0]);
        }
        assert(b.drop_first().take(a.len() - 1) =~= a.drop_first()) by {
            assert forall|i: int| 0 <= i < a.len() - 1 implies b.drop_first().take(a.len() - 1)[i]
                == a.drop_first()[i] by {
                assert(b.take(a.len() as int)[i + 1] == a[i + 1]);
            }
        }
        lemma_longer_takes_more(a.drop_first(), b.drop_first());
    }
}

/// The same protocols, the first of them apart.
proof fn lemma_protocols_from_front(protocols: Seq<Seq<char>>)
    requires
        protocols.len() > 0,
    ensures
        protocols_text(protocols) == protocol_text(protocols[0]) + protocols_text(
            protocols.drop_first(),
        ),
    decreases protocols.len(),
{
    reveal_with_fuel(protocols_text, 2);
    let rest = protocols.drop_first();
    if rest.len() == 0 {
        assert(protocols.drop_last() =~= Seq::<Seq<char>>::empty());
        assert(protocols_text(protocols) =~= protocol_text(protocols[0]) + protocols_text(rest));
    } else {
        lemma_protocols_from_front(protocols.drop_last());
        assert(protocols.drop_last().drop_first() =~= rest.drop_last());
        assert(protocols_text(protocols) =~= protocol_text(protocols[0]) + protocols_text(rest));
    }
}

/// Two texts that begin with a protocol behind its length, and are the same,
/// begin with the same protocol.
proof fn lemma_first_protocol(p: Seq<char>, q: Seq<char>, x: Seq<char>, y: Seq<char>)
    requires
        protocol_text(p) + x == protocol_text(q) + y,
        utf8::encode_utf8(p).len() <= usize::MAX,
        utf8::encode_utf8(q).len() <= usize::MAX,
    ensures
        p == q,
        x == y,
{
    reveal_strlit(":");
    let m = text::byte_len(p) as int;
    let n = text::byte_len(q) as int;
    let a = text::decimal_text(m);
    let b = text::decimal_text(n);
    lemma_decimal_digits(m);
    lemma_decimal_digits(n);
    let whole = protocol_text(p) + x;
    assert(whole =~= a + (":"@ + p + x));
    assert(whole =~= b + (":"@ + q + y));
    assert(!is_digit(':'));
    assert(whole[a.len() as int] == ':');
    assert(whole[b.len() as int] == ':');
    if a.len() < b.len() {
        assert(whole[a.len() as int] == b[a.len() as int]);
        assert(is_digit(b[a.len() as int]));
    }
    if b.len() < a.len() {
        assert(whole[b.len() as int] == a[b.len() as int]);
        assert(is_digit(a[b.len() as int]));
    }
    assert(a =~= whole.take(a.len() as int));
    assert(b =~= whole.take(b.len() as int));
    lemma_decimal_number(m);
    lemma_decimal_number(n);
    assert(m == n);
    let rest = whole.skip(a.len() as int + 1);
    assert(rest =~= p + x);
    assert(rest =~= q + y);
    if p.len() < q.len() {
        assert(q.take(p.len() as int) =~= p) by {
            assert forall|i: int| 0 <= i < p.len() implies q.take(p.len() as int)[i] == p[i] by {
                assert(rest[i] == p[i]);
                assert(rest[i] == q[i]);
            }
        }
        lemma_longer_takes_more(p, q);
    }
    if q.len() < p.len() {
        assert(p.take(q.len() as int) =~= q) by {
            assert forall|i: int| 0 <= i < q.len() implies p.take(q.len() as int)[i] == q[i] by {
                assert(rest[i] == p[i]);
                assert(rest[i] == q[i]);
            }
        }
        lemma_longer_takes_more(q, p);
    }
    assert(p =~= rest.take(p.len() as int));
    assert(q =~= rest.take(q.len() as int));
    assert(x =~= rest.skip(p.len() as int));
    assert(y =~= rest.skip(q.len() as int));
}

/// Whether texts are such as a machine can hold.
pub open spec fn fit(protocols: Seq<Seq<char>>) -> bool {
    forall|i: int|
        0 <= i < protocols.len() ==> utf8::encode_utf8(#[trigger] protocols[i]).len() <= usize::MAX
}

/// Protocols can be read back out of the text that they are written in, though
/// they may hold any character.
pub proof fn law_protocols_are_told_apart(p: Seq<Seq<char>>, q: Seq<Seq<char>>)
    requires
        fit(p),
        fit(q),
        protocols_text(p) == protocols_text(q),
    ensures
        p == q,
    decreases p.len(),
{
    reveal_strlit(":");
    if p.len() == 0 {
        if q.len() > 0 {
            lemma_protocols_from_front(q);
            assert(protocols_text(q).len() > 0);
        }
        assert(p =~= q);
    } else {
        lemma_protocols_from_front(p);
        if q.len() == 0 {
            assert(protocols_text(p).len() > 0);
        }
        lemma_protocols_from_front(q);
        lemma_first_protocol(
            p[0],
            q[0],
            protocols_text(p.drop_first()),
            protocols_text(q.drop_first()),
        );
        law_protocols_are_told_apart(p.drop_first(), q.drop_first());
        assert(p =~= seq![p[0]] + p.drop_first());
        assert(q =~= seq![q[0]] + q.drop_first());
    }
}

/// The place where a byte string belongs among others that are in order.
proof fn lemma_place(s: Seq<Seq<u8>>, value: Seq<u8>) -> (i: int)
    requires
        bytes::ordered(s),
    ensures
        0 <= i <= s.len(),
        forall|j: int| 0 <= j < i ==> bytes::less(#[trigger] s[j], value),
        i < s.len() ==> s[i] == value || bytes::less(value, s[i]),
    decreases s.len(),
{
    if s.len() == 0 {
        0
    } else {
        let front = s.drop_last();
        let i = lemma_place(front, value);
        assert forall|j: int| 0 <= j < i implies bytes::less(#[trigger] s[j], value) by {
            assert(front[j] == s[j]);
        }
        if i < front.len() {
            assert(front[i] == s[i]);
            i
        } else {
            bytes::lemma_less_total(s.last(), value);
            if bytes::less(s.last(), value) {
                assert forall|j: int| 0 <= j < s.len() implies bytes::less(
                    #[trigger] s[j],
                    value,
                ) by {
                    if j < front.len() {
                        assert(front[j] == s[j]);
                    }
                }
                s.len() as int
            } else {
                s.len() - 1
            }
        }
    }
}

/// Names can always be put in order, each of them once.
pub proof fn lemma_canonical_exists(names: Seq<Seq<char>>)
    ensures
        is_canonical(canonical(names), names),
    decreases names.len(),
{
    if names.len() == 0 {
        assert(is_canonical(names, names));
    } else {
        let front = names.drop_last();
        lemma_canonical_exists(front);
        let c = canonical(front);
        let s = encodings(c);
        let value = utf8::encode_utf8(names.last());
        let i = lemma_place(s, value);
        assert(encodings(names) =~= encodings(front).push(value));
        lemma_push_set(encodings(front), value);
        if i < s.len() && s[i] == value {
            assert(s.to_set().contains(value));
            assert(s.to_set().insert(value) =~= s.to_set());
            assert(is_canonical(c, names));
        } else {
            bytes::lemma_insert_ordered(s, i, value);
            assert(encodings(c.insert(i, names.last())) =~= s.insert(i, value));
            assert(is_canonical(c.insert(i, names.last()), names));
        }
    }
}

proof fn lemma_canonical_fits(c: Seq<Seq<char>>, names: Seq<Seq<char>>)
    requires
        is_canonical(c, names),
        fit(names),
    ensures
        fit(c),
{
    assert forall|i: int| 0 <= i < c.len() implies utf8::encode_utf8(#[trigger] c[i]).len()
        <= usize::MAX by {
        assert(encodings(c)[i] == utf8::encode_utf8(c[i]));
        assert(encodings(c).to_set().contains(encodings(c)[i]));
        let k = choose|k: int|
            0 <= k < encodings(names).len() && encodings(names)[k] == encodings(c)[i];
        assert(encodings(names)[k] == utf8::encode_utf8(names[k]));
    }
}

/// Two fronts have the same key only if they are of the same listener, for the
/// same server name, but for the case of its letters, and for the same
/// protocols.
pub proof fn law_fronts_have_distinct_keys(
    address: Seq<char>,
    sni: Seq<char>,
    alpn: Seq<Seq<char>>,
    other_address: Seq<char>,
    other_sni: Seq<char>,
    other_alpn: Seq<Seq<char>>,
)
    requires
        fit(seq![address, text::lower_text(sni)] + alpn),
        fit(seq![other_address, text::lower_text(other_sni)] + other_alpn),
        sni_key_text(address, sni, alpn) == sni_key_text(other_address, other_sni, other_alpn),
    ensures
        address == other_address,
        text::lower_text(sni) == text::lower_text(other_sni),
        encodings(alpn).to_set() == encodings(other_alpn).to_set(),
{
    reveal_strlit("|");
    lemma_canonical_exists(alpn);
    lemma_canonical_exists(other_alpn);
    let c = canonical(alpn);
    let d = canonical(other_alpn);
    let s = text::lower_text(sni);
    let t = text::lower_text(other_sni);
    lemma_key_parts_fit(address, s, alpn);
    lemma_key_parts_fit(other_address, t, other_alpn);
    let whole = sni_key_text(address, sni, alpn);
    let x = "|"@ + protocols_text(seq![s] + c);
    let y = "|"@ + protocols_text(seq![t] + d);
    assert(whole =~= protocol_text(address) + x);
    assert(whole =~= protocol_text(other_address) + y);
    lemma_first_protocol(address, other_address, x, y);
    assert(protocols_text(seq![s] + c) =~= x.skip(1));
    assert(protocols_text(seq![t] + d) =~= y.skip(1));
    law_protocols_are_told_apart(seq![s] + c, seq![t] + d);
    assert((seq![s] + c)[0] == s);
    assert((seq![t] + d)[0] == t);
    assert(c =~= (seq![s] + c).skip(1));
    assert(d =~= (seq![t] + d).skip(1));
}

proof fn lemma_key_parts_fit(address: Seq<char>, sni: Seq<char>, alpn: Seq<Seq<char>>)
    requires
        fit(seq![address, sni] + alpn),
    ensures
        utf8::encode_utf8(address).len() <= usize::MAX,
        fit(seq![sni] + canonical(alpn)),
{
    let all = seq![address, sni] + alpn;
    assert(all[0] == address && all[1] == sni);
    assert forall|i: int| 0 <= i < alpn.len() implies utf8::encode_utf8(#[trigger] alpn[i]).len()
        <= usize::MAX by {
        assert(all[i + 2] == alpn[i]);
    }
    lemma_canonical_exists(alpn);
    lemma_canonical_fits(canonical(alpn), alpn);
    let names = seq![sni] + canonical(alpn);
    assert forall|i: int| 0 <= i < names.len() implies utf8::encode_utf8(#[trigger] names[i]).len()
        <= usize::MAX by {
        if i > 0 {
            assert(names[i] == canonical(alpn)[i - 1]);
        }
    }
}

/// The key of a front for a server name is never the bare address under which
/// the only front of a listener keeps its tags.
pub proof fn law_keys_differ_from_addresses(
    address: Seq<char>,
    sni: Seq<char>,
    alpn: Seq<Seq<char>>,
    other_address: Seq<char>,
)
    requires
        !other_address.contains('|'),
    ensures
        sni_key_text(address, sni, alpn) != other_address,
{
    reveal_strlit("|");
    let key = sni_key_text(address, sni, alpn);
    assert(key[protocol_text(address).len() as int] == '|');
    assert(key.contains('|'));
}

} // verus!
