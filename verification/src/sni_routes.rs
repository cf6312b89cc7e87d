//! The routes of a TCP listener that looks at the server name a client asks
//! for.
//!
//! Under each server name there may be several routes, for different offers of
//! application protocols. A name may begin with a wildcard, which stands for one
//! label.
use vstd::prelude::*;

use crate::alpn::AlpnMatcher;
use crate::bytes::slice_to_vec;
use crate::table::Table;
use crate::text;

verus! {

/// What is wrong with the pattern of a server name.
#[derive(Copy, Clone, Debug, PartialEq, Eq, Structural)]
pub enum SniPatternError {
    /// There is nothing in it.
    Empty,
    /// It holds a character that is not ASCII.
    NotAscii,
    /// It holds a slash, which would make a label a regular expression.
    Slash,
    /// It has a label with nothing in it.
    EmptyLabel,
    /// It has a wildcard that is not its whole first label, or no other label.
    MisplacedWildcard,
}

impl SniPatternError {
    /// What is wrong, in words.
    pub open spec fn text(self) -> Seq<char> {
        match self {
            SniPatternError::Empty => "the pattern is empty"@,
            SniPatternError::NotAscii => "the pattern must be ASCII"@,
            SniPatternError::Slash => "regex labels are not supported"@,
            SniPatternError::EmptyLabel => "a label is empty"@,
            SniPatternError::MisplacedWildcard => "a wildcard must be a single leading label"@,
        }
    }

    /// What is wrong, in words.
    pub fn message(self) -> (m: &'static str)
        ensures
            m@ == self.text(),
    {
        match self {
            SniPatternError::Empty => "the pattern is empty",
            SniPatternError::NotAscii => "the pattern must be ASCII",
            SniPatternError::Slash => "regex labels are not supported",
            SniPatternError::EmptyLabel => "a label is empty",
            SniPatternError::MisplacedWildcard => "a wildcard must be a single leading label",
        }
    }
}

/// Whether the label that begins at `i` has nothing in it.
pub open spec fn empty_label_at(s: Seq<char>, i: int) -> bool {
    (i == 0 || s[i - 1] == '.') && (i == s.len() || s[i] == '.')
}

/// Whether a label of a name has nothing in it.
pub open spec fn has_empty_label(s: Seq<char>) -> bool {
    exists|i: int| 0 <= i <= s.len() && #[trigger] empty_label_at(s, i)
}

/// Whether there is a wildcard at `i`, where there may be none.
pub open spec fn misplaced_wildcard_at(s: Seq<char>, i: int) -> bool {
    s[i] == '*' && !(i == 0 && s.len() > 1 && s[1] == '.')
}

/// What is wrong with a pattern, if something is.
pub open spec fn sni_pattern_error(s: Seq<char>) -> Option<SniPatternError> {
    if s.len() == 0 {
        Some(SniPatternError::Empty)
    } else if exists|i: int| 0 <= i < s.len() && (#[trigger] s[i]) as u32 >= 128 {
        Some(SniPatternError::NotAscii)
    } else if exists|i: int| 0 <= i < s.len() && #[trigger] s[i] == '/' {
        Some(SniPatternError::Slash)
    } else if has_empty_label(s) {
        Some(SniPatternError::EmptyLabel)
    } else if exists|i: int| 0 <= i < s.len() && #[trigger] misplaced_wildcard_at(s, i) {
        Some(SniPatternError::MisplacedWildcard)
    } else {
        None
    }
}

fn holds_non_ascii(s: &str) -> (r: bool)
    ensures
        r == exists|i: int| 0 <= i < s@.len() && (#[trigger] s@[i]) as u32 >= 128,
{
    let len = s.unicode_len();
    let mut i: usize = 0;
    while i < len
        invariant
            i <= len,
            len == s@.len(),
            forall|j: int| 0 <= j < i ==> (#[trigger] s@[j]) as u32 <= 127,
        decreases len - i,
    {
        let c = s.get_char(i);
        if c as u32 >= 128 {
            assert(s@[i as int] as u32 >= 128);
            return true;
        }
        i += 1;
    }
    false
}

fn holds_slash(s: &str) -> (r: bool)
    ensures
        r == exists|i: int| 0 <= i < s@.len() && #[trigger] s@[i] == '/',
{
    let len = s.unicode_len();
    let mut i: usize = 0;
    while i < len
        invariant
            i <= len,
            len == s@.len(),
            forall|j: int| 0 <= j < i ==> #[trigger] s@[j] != '/',
        decreases len - i,
    {
        if s.get_char(i) == '/' {
            return true;
        }
        i += 1;
    }
    false
}

pub(crate) fn holds_empty_label(s: &str) -> (r: bool)
    ensures
        r == has_empty_label(s@),
{
    let len = s.unicode_len();
    let mut i: usize = 0;
    while i < len
        invariant
            i <= len,
            len == s@.len(),
            forall|j: int| 0 <= j < i ==> !#[trigger] empty_label_at(s@, j),
        decreases len - i,
    {
        if (i == 0 || s.get_char(i - 1) == '.') && s.get_char(i) == '.' {
            assert(empty_label_at(s@, i as int));
            return true;
        }
        assert(!empty_label_at(s@, i as int));
        i += 1;
    }
    let r = len == 0 || s.get_char(len - 1) == '.';
    assert(r == empty_label_at(s@, len as int));
    r
}

fn holds_misplaced_wildcard(s: &str) -> (r: bool)
    ensures
        r == exists|i: int| 0 <= i < s@.len() && #[trigger] misplaced_wildcard_at(s@, i),
{
    let len = s.unicode_len();
    let mut i: usize = 0;
    while i < len
        invariant
            i <= len,
            len == s@.len(),
            forall|j: int| 0 <= j < i ==> !#[trigger] misplaced_wildcard_at(s@, j),
        decreases len - i,
    {
        if s.get_char(i) == '*' && !(i == 0 && len > 1 && s.get_char(1) == '.') {
            assert(misplaced_wildcard_at(s@, i as int));
            return true;
        }
        assert(!misplaced_wildcard_at(s@, i as int));
        i += 1;
    }
    false
}

/// The pattern of a server name in the form that routes are kept under: in
/// lower case. Fails where the pattern is not that of a server name.
pub fn validate_sni_pattern(sni: &str) -> (r: Result<String, SniPatternError>)
    ensures
        match sni_pattern_error(sni@) {
            Some(e) => r == Err::<String, SniPatternError>(e),
            None => r matches Ok(normalized) && normalized@ == text::lower_text(sni@),
        },
{
    if sni.unicode_len() == 0 {
        Err(SniPatternError::Empty)
    } else if holds_non_ascii(sni) {
        Err(SniPatternError::NotAscii)
    } else if holds_slash(sni) {
        Err(SniPatternError::Slash)
    } else if holds_empty_label(sni) {
        Err(SniPatternError::EmptyLabel)
    } else if holds_misplaced_wildcard(sni) {
        Err(SniPatternError::MisplacedWildcard)
    } else {
        Ok(text::to_ascii_lowercase(sni))
    }
}

/// What tells one route of a server name from another: the protocols that it is
/// for and the cluster that it leads to.
pub type RouteModel = (Option<Set<Seq<u8>>>, Seq<char>);

/// What tells routes apart.
pub open spec fn models(routes: Seq<(AlpnMatcher, String)>) -> Seq<RouteModel> {
    routes.map_values(|r: (AlpnMatcher, String)| (r.0.protocols(), r.1@))
}

/// Routes without those like `route`.
pub open spec fn without_route(routes: Seq<RouteModel>, route: RouteModel) -> Seq<RouteModel>
    decreases routes.len(),
{
    if routes.len() == 0 {
        routes
    } else {
        let front = without_route(routes.drop_last(), route);
        if routes.last() == route {
            front
        } else {
            front.push(routes.last())
        }
    }
}

/// Whether there is an offer that two routes are both for by name: both are for
/// everything, or both name a protocol.
pub open spec fn overlap(a: RouteModel, b: RouteModel) -> bool {
    match (a.0, b.0) {
        (None, None) => true,
        (Some(p), Some(q)) => exists|protocol: Seq<u8>| #[trigger]
            p.contains(protocol) && q.contains(protocol),
        _ => false,
    }
}

/// Whether no two of some routes overlap: at most one is for everything, and no
/// protocol is named by two.
pub open spec fn disjoint(routes: Seq<RouteModel>) -> bool {
    forall|i: int, j: int|
        0 <= i < j < routes.len() ==> !overlap(#[trigger] routes[i], #[trigger] routes[j])
}

/// What is left of routes when some go is among them, and does not overlap if
/// they did not.
pub proof fn lemma_without_route(routes: Seq<RouteModel>, route: RouteModel)
    ensures
        forall|i: int|
            0 <= i < without_route(routes, route).len() ==> routes.contains(
                #[trigger] without_route(routes, route)[i],
            ),
        disjoint(routes) ==> disjoint(without_route(routes, route)),
    decreases routes.len(),
{
    if routes.len() > 0 {
        let front = routes.drop_last();
        let rest = without_route(front, route);
        let result = without_route(routes, route);
        lemma_without_route(front, route);
        assert forall|i: int| 0 <= i < rest.len() implies routes.contains(#[trigger] rest[i]) by {
            let k = front.index_of(rest[i]);
            assert(routes[k] == rest[i]);
        }
        assert(routes[routes.len() - 1] == routes.last());
        assert forall|i: int| 0 <= i < result.len() implies routes.contains(
            #[trigger] result[i],
        ) by {
            if i < rest.len() {
                assert(result[i] == rest[i]);
            }
        }
        if disjoint(routes) {
            assert(disjoint(front));
            assert forall|i: int, j: int| 0 <= i < j < result.len() implies !overlap(
                #[trigger] result[i],
                #[trigger] result[j],
            ) by {
                assert(result[i] == rest[i]);
                if j < rest.len() {
                    assert(result[j] == rest[j]);
                } else {
                    assert(front.contains(rest[i]));
                    let k = front.index_of(rest[i]);
                    assert(routes[k] == rest[i]);
                    assert(routes[routes.len() - 1] == result[j]);
                }
            }
        }
    }
}

/// The routes of a listener, by server name.
#[derive(Debug)]
pub struct SniRoutes {
    pub table: Table<Vec<u8>, Vec<(AlpnMatcher, String)>>,
}

/// Where the first dot of a name is.
pub open spec fn first_dot(name: Seq<u8>) -> Option<int>
    decreases name.len(),
{
    if name.len() == 0 {
        None
    } else {
        match first_dot(name.drop_last()) {
            Some(i) => Some(i),
            None => if name.last() == 46 {
                Some(name.len() - 1)
            } else {
                None
            },
        }
    }
}

proof fn lemma_first_dot(name: Seq<u8>)
    ensures
        first_dot(name) matches Some(i) ==> 0 <= i < name.len() && name[i] == 46 && forall|j: int|
            0 <= j < i ==> #[trigger] name[j] != 46,
        first_dot(name) is None ==> forall|j: int| 0 <= j < name.len() ==> #[trigger] name[j] != 46,
    decreases name.len(),
{
    if name.len() > 0 {
        let front = name.drop_last();
        lemma_first_dot(front);
        assert forall|j: int| 0 <= j < front.len() implies #[trigger] name[j] == front[j] by {}
    }
}

/// The name with a wildcard in place of its first label.
pub open spec fn wildcard_of(name: Seq<u8>) -> Option<Seq<u8>> {
    match first_dot(name) {
        Some(i) => Some(seq![42u8] + name.skip(i)),
        None => None,
    }
}

/// Whether a name begins with a wildcard.
pub open spec fn is_wildcard(name: Seq<u8>) -> bool {
    name.len() > 1 && name[0] == 42 && name[1] == 46
}

/// The name under which something is found for `name`: the name itself, or else
/// the one with a wildcard in place of its first label.
pub open spec fn matched_key(
    keys: Set<Seq<u8>>,
    name: Seq<u8>,
    accept_wildcard: bool,
) -> Option<Seq<u8>> {
    if !is_wildcard(name) && keys.contains(name) {
        Some(name)
    } else {
        match wildcard_of(name) {
            Some(wildcard) if accept_wildcard && keys.contains(wildcard) => Some(wildcard),
            _ => None,
        }
    }
}

/// The name under which something is found for `name` in a table.
pub fn find_key<V>(table: &Table<Vec<u8>, V>, name: &[u8], accept_wildcard: bool) -> (key: Option<
    Vec<u8>,
>)
    requires
        table.wf(),
    ensures
        key is Some <==> matched_key(table.map().dom(), name@, accept_wildcard) is Some,
        key matches Some(k) ==> matched_key(table.map().dom(), name@, accept_wildcard) == Some(k@),
{
    let own = slice_to_vec(name);
    let wildcard = own.len() > 1 && own[0] == 42 && own[1] == 46;
    if !wildcard && table.position(&own).is_some() {
        return Some(own);
    }
    if !accept_wildcard {
        return None;
    }
    match wildcard_name(name) {
        Some(key) => {
            if table.position(&key).is_some() {
                Some(key)
            } else {
                None
            }
        },
        None => None,
    }
}

impl SniRoutes {
    /// The routes under each name.
    pub open spec fn routes(self) -> Map<Seq<u8>, Seq<RouteModel>> {
        self.table.map().map_values(|v: Vec<(AlpnMatcher, String)>| models(v@))
    }

    /// Whether the routes kept under one name are as they must be.
    pub open spec fn entry_ok(routes: Seq<(AlpnMatcher, String)>) -> bool {
        routes.len() > 0 && forall|i: int| 0 <= i < routes.len() ==> (#[trigger] routes[i]).0.wf()
    }

    /// What every table of routes meets: under each name that is there, there is
    /// a route.
    pub open spec fn wf(self) -> bool {
        &&& self.table.wf()
        &&& forall|key: Seq<u8>| #[trigger]
            self.table.map().dom().contains(key) ==> Self::entry_ok(self.table.map()[key]@)
    }

    /// The name whose routes a client that asks for `name` may take.
    pub open spec fn matched_name(self, name: Seq<u8>, accept_wildcard: bool) -> Option<Seq<u8>> {
        matched_key(self.routes().dom(), name, accept_wildcard)
    }

    /// A table without routes.
    pub fn new() -> (r: SniRoutes)
        ensures
            r.wf(),
            r.routes() == Map::<Seq<u8>, Seq<RouteModel>>::empty(),
    {
        let r = SniRoutes { table: Table::new() };
        assert(r.routes() =~= Map::<Seq<u8>, Seq<RouteModel>>::empty());
        r
    }

    /// Whether there are no routes.
    pub fn is_empty(&self) -> (r: bool)
        requires
            self.wf(),
        ensures
            r == (self.routes() == Map::<Seq<u8>, Seq<RouteModel>>::empty()),
    {
        let r = self.table.is_empty();
        proof {
            if r {
                assert(self.routes() =~= Map::<Seq<u8>, Seq<RouteModel>>::empty());
            } else {
                assert(self.table.entries@.len() > 0) by {
                    if self.table.entries@.len() == 0 {
                        assert(self.table.map() =~= Map::<
                            Seq<u8>,
                            Vec<(AlpnMatcher, String)>,
                        >::empty());
                    }
                }
                self.table.lemma_entry(0);
                assert(self.routes().dom().contains(self.table.entries@[0].0@));
            }
        }
        r
    }

    /// The routes that are kept under exactly this name.
    pub fn own_routes(&self, name: &Vec<u8>) -> (routes: Option<&Vec<(AlpnMatcher, String)>>)
        requires
            self.wf(),
        ensures
            routes is Some <==> self.routes().dom().contains(name@),
            routes matches Some(r) ==> models(r@) == self.routes()[name@] && Self::entry_ok(r@),
    {
        self.table.get(name)
    }

    /// The routes that a client that asks for `name` may take, with the name
    /// that they are kept under.
    pub fn domain_lookup(&self, name: &[u8], accept_wildcard: bool) -> (found: Option<
        (Vec<u8>, &Vec<(AlpnMatcher, String)>),
    >)
        requires
            self.wf(),
        ensures
            found is Some <==> self.matched_name(name@, accept_wildcard) is Some,
            found matches Some(f) ==> Some(f.0@) == self.matched_name(name@, accept_wildcard)
                && models(f.1@) == self.routes()[f.0@],
    {
        assert(self.routes().dom() =~= self.table.map().dom());
        match find_key(&self.table, name, accept_wildcard) {
            Some(key) => match self.own_routes(&key) {
                Some(routes) => Some((key, routes)),
                None => None,
            },
            None => None,
        }
    }

    /// The routes under a name after another one is added.
    pub open spec fn with_route(self, name: Seq<u8>, route: RouteModel) -> Seq<RouteModel> {
        if self.routes().dom().contains(name) {
            self.routes()[name].push(route)
        } else {
            seq![route]
        }
    }

    /// Adds a route behind those that there are under its name.
    pub fn insert(&mut self, name: Vec<u8>, matcher: AlpnMatcher, cluster_id: String)
        requires
            old(self).wf(),
            matcher.wf(),
        ensures
            final(self).wf(),
            final(self).routes() == old(self).routes().insert(
                name@,
                old(self).with_route(name@, (matcher.protocols(), cluster_id@)),
            ),
    {
        let ghost before = *self;
        let ghost key = name@;
        let ghost route: RouteModel = (matcher.protocols(), cluster_id@);
        let mut routes = match self.table.remove(&name) {
            Some(routes) => routes,
            None => Vec::new(),
        };
        routes.push((matcher, cluster_id));
        assert(models(routes@) =~= before.with_route(key, route));
        let ghost value = routes;
        self.table.insert(name, routes);
        proof {
            assert(self.table.map() =~= before.table.map().insert(key, value));
            assert(self.routes() =~= before.routes().insert(key, before.with_route(key, route)));
        }
    }

    /// Removes the routes under a name that are for exactly these offers and
    /// lead to this cluster. No name is left without routes.
    pub fn remove(&mut self, name: &Vec<u8>, matcher: &AlpnMatcher, cluster_id: &String)
        requires
            old(self).wf(),
            matcher.wf(),
        ensures
            final(self).wf(),
            final(self).routes() == {
                let rest = without_route(
                    old(self).routes()[name@],
                    (matcher.protocols(), cluster_id@),
                );
                if !old(self).routes().dom().contains(name@) {
                    old(self).routes()
                } else if rest.len() == 0 {
                    old(self).routes().remove(name@)
                } else {
                    old(self).routes().insert(name@, rest)
                }
            },
    {
        let ghost before = *self;
        let ghost key = name@;
        let ghost route: RouteModel = (matcher.protocols(), cluster_id@);
        let routes = match self.table.remove(name) {
            Some(routes) => routes,
            None => {
                assert(self.table.map() =~= before.table.map());
                return ;
            },
        };
        let rest = retain_routes(routes, matcher, cluster_id);
        if rest.len() == 0 {
            assert(self.routes() =~= before.routes().remove(key));
        } else {
            let ghost value = rest;
            self.table.insert(slice_to_vec(name.as_slice()), rest);
            proof {
                assert(self.table.map() =~= before.table.map().insert(key, value));
                assert(self.routes() =~= before.routes().insert(key, models(value@)));
            }
        }
    }
}

/// The name with a wildcard in place of its first label.
fn wildcard_name(name: &[u8]) -> (wildcard: Option<Vec<u8>>)
    ensures
        wildcard is Some <==> wildcard_of(name@) is Some,
        wildcard matches Some(w) ==> wildcard_of(name@) == Some(w@),
{
    proof {
        lemma_first_dot(name@);
    }
    let mut i: usize = 0;
    while i < name.len() && name[i] != 46
        invariant
            i <= name@.len(),
            forall|j: int| 0 <= j < i ==> #[trigger] name@[j] != 46,
        decreases name@.len() - i,
    {
        i += 1;
    }
    if i == name.len() {
        return None;
    }
    let ghost dot = i as int;
    assert(first_dot(name@) == Some(dot));
    let mut wildcard: Vec<u8> = Vec::new();
    wildcard.push(42);
    assert(wildcard@ =~= seq![42u8] + name@.subrange(dot, dot));
    while i < name.len()
        invariant
            dot <= i <= name@.len(),
            0 <= dot,
            wildcard@ == seq![42u8] + name@.subrange(dot, i as int),
        decreases name@.len() - i,
    {
        wildcard.push(name[i]);
        i += 1;
        assert(wildcard@ =~= seq![42u8] + name@.subrange(dot, i as int));
    }
    assert(name@.subrange(dot, name@.len() as int) =~= name@.skip(dot));
    Some(wildcard)
}

/// Routes without those for exactly these offers that lead to this cluster.
fn retain_routes(
    routes: Vec<(AlpnMatcher, String)>,
    matcher: &AlpnMatcher,
    cluster_id: &String,
) -> (rest: Vec<(AlpnMatcher, String)>)
    requires
        matcher.wf(),
        forall|i: int| 0 <= i < routes@.len() ==> (#[trigger] routes@[i]).0.wf(),
    ensures
        models(rest@) == without_route(models(routes@), (matcher.protocols(), cluster_id@)),
        forall|i: int| 0 <= i < rest@.len() ==> (#[trigger] rest@[i]).0.wf(),
{
    let ghost all = models(routes@);
    let ghost route: RouteModel = (matcher.protocols(), cluster_id@);
    let mut left = routes;
    // The routes come off the end, so they are kept in reverse until then.
    let mut kept: Vec<(AlpnMatcher, String)> = Vec::new();
    assert(models(kept@).reverse() =~= Seq::<RouteModel>::empty());
    assert(without_route(all, route) =~= without_route(all.take(left@.len() as int), route)
        + models(kept@).reverse()) by {
        assert(all.take(all.len() as int) =~= all);
    }
    while left.len() > 0
        invariant
            matcher.wf(),
            left@.len() <= all.len(),
            route == (matcher.protocols(), cluster_id@),
            models(left@) == all.take(left@.len() as int),
            forall|i: int| 0 <= i < left@.len() ==> (#[trigger] left@[i]).0.wf(),
            forall|i: int| 0 <= i < kept@.len() ==> (#[trigger] kept@[i]).0.wf(),
            without_route(all, route) == without_route(all.take(left@.len() as int), route)
                + models(kept@).reverse(),
        decreases left@.len(),
    {
        let ghost n = left@.len() as int;
        let ghost before = left@;
        let ghost kept_before = kept@;
        let last = left.pop();
        if let Some(last) = last {
            proof {
                assert(models(before)[n - 1] == all[n - 1]);
                assert(models(left@) =~= all.take(n - 1));
                assert(all.take(n).drop_last() =~= all.take(n - 1));
                assert(all.take(n).last() == all[n - 1]);
                assert(before[n - 1] == last);
            }
            let gone = last.0.same(matcher) && text::same_text(&last.1, cluster_id);
            assert(gone == (all[n - 1] == route));
            if !gone {
                kept.push(last);
                assert(models(kept@).reverse() =~= seq![all[n - 1]] + models(
                    kept_before,
                ).reverse());
            }
            assert(without_route(all.take(n - 1), route) + models(kept@).reverse()
                =~= without_route(all.take(n), route) + models(kept_before).reverse());
        }
    }
    let mut rest: Vec<(AlpnMatcher, String)> = Vec::new();
    let ghost target = models(kept@).reverse();
    assert(without_route(all, route) =~= target) by {
        assert(all.take(0).len() == 0);
    }
    assert(models(rest@) =~= target.take(0));
    assert(target.len() == kept@.len());
    while kept.len() > 0
        invariant
            models(kept@) == target.reverse().take(kept@.len() as int),
            kept@.len() + rest@.len() == target.len(),
            models(rest@) == target.take(rest@.len() as int),
            forall|i: int| 0 <= i < kept@.len() ==> (#[trigger] kept@[i]).0.wf(),
            forall|i: int| 0 <= i < rest@.len() ==> (#[trigger] rest@[i]).0.wf(),
        decreases kept@.len(),
    {
        let ghost n = kept@.len() as int;
        let ghost before = kept@;
        let ghost done = rest@.len() as int;
        let next = kept.pop();
        if let Some(next) = next {
            proof {
                assert(models(before)[n - 1] == target.reverse()[n - 1]);
                assert(target.reverse()[n - 1] == target[done]);
                assert(models(kept@) =~= target.reverse().take(n - 1));
                assert(before[n - 1] == next);
            }
            rest.push(next);
            assert(models(rest@) =~= target.take(done + 1));
        }
    }
    assert(target.take(target.len() as int) =~= target);
    rest
}

/// Removing a route that was added leaves the routes under its name as they
/// were, unless there was one like it before.
pub proof fn lemma_without_added(routes: Seq<RouteModel>, route: RouteModel)
    requires
        !routes.contains(route),
    ensures
        without_route(routes, route) == routes,
        without_route(routes.push(route), route) == routes,
    decreases routes.len(),
{
    assert(routes.push(route).drop_last() =~= routes);
    if routes.len() > 0 {
        let front = routes.drop_last();
        assert forall|i: int| 0 <= i < front.len() implies front[i] != route by {
            assert(routes[i] == front[i]);
        }
        lemma_without_added(front, route);
        assert(routes[routes.len() - 1] != route);
        assert(front.push(routes.last()) =~= routes);
    }
}

/// Adding a route and removing it again leaves all routes as they were, unless
/// there was one like it before.
pub proof fn law_remove_undoes_insert(
    before: SniRoutes,
    added: SniRoutes,
    after: SniRoutes,
    name: Seq<u8>,
    route: RouteModel,
)
    requires
        before.wf(),
        before.routes().dom().contains(name) ==> !before.routes()[name].contains(route),
        added.routes() == before.routes().insert(name, before.with_route(name, route)),
        after.routes() == {
            let rest = without_route(added.routes()[name], route);
            if rest.len() == 0 {
                added.routes().remove(name)
            } else {
                added.routes().insert(name, rest)
            }
        },
    ensures
        after.routes() == before.routes(),
{
    if before.routes().dom().contains(name) {
        let old_routes = before.routes()[name];
        lemma_without_added(old_routes, route);
        assert(SniRoutes::entry_ok(before.table.map()[name]@));
        assert(after.routes() =~= before.routes());
    } else {
        assert(seq![route] =~= Seq::<RouteModel>::empty().push(route));
        lemma_without_added(Seq::<RouteModel>::empty(), route);
        assert(after.routes() =~= before.routes());
    }
}

/// A change of the routes under one name leaves those under all others as they
/// were; so the exact name and the wildcard that would stand for it do not
/// disturb each other.
pub proof fn law_names_are_independent(
    before: SniRoutes,
    after: SniRoutes,
    name: Seq<u8>,
    routes: Seq<RouteModel>,
    other: Seq<u8>,
)
    requires
        after.routes() == before.routes().insert(name, routes) || after.routes()
            == before.routes().remove(name),
        other != name,
    ensures
        after.routes().dom().contains(other) <==> before.routes().dom().contains(other),
        before.routes().dom().contains(other) ==> after.routes()[other] == before.routes()[other],
{
}

/// An exact name goes before a wildcard, and a wildcard stands for one label.
pub proof fn law_exact_name_first(routes: SniRoutes, name: Seq<u8>)
    requires
        !is_wildcard(name),
    ensures
        routes.routes().dom().contains(name) ==> routes.matched_name(name, true) == Some(name),
        routes.matched_name(name, false) matches Some(m) ==> m == name,
        routes.matched_name(name, true) matches Some(m) ==> m == name || Some(m) == wildcard_of(
            name,
        ),
{
}

/// A server name may be routed by if and only if it is not empty, all of it is
/// ASCII, it holds no slash, no label of it is empty, and it holds no asterisk
/// but as the whole of its first label.
pub proof fn law_which_names_may_be_routed_by(s: Seq<char>)
    ensures
        sni_pattern_error(s) is None <==> {
            &&& s.len() > 0
            &&& forall|i: int| 0 <= i < s.len() ==> (#[trigger] s[i]) as u32 <= 127
            &&& forall|i: int| 0 <= i < s.len() ==> #[trigger] s[i] != '/'
            &&& s[0] != '.' && s.last() != '.'
            &&& forall|i: int| 0 < i < s.len() && #[trigger] s[i] == '.' ==> s[i - 1] != '.'
            &&& forall|i: int| 0 < i < s.len() ==> #[trigger] s[i] != '*'
            &&& s[0] == '*' ==> s.len() > 1 && s[1] == '.'
        },
{
    if s.len() > 0 {
        if s[0] == '.' {
            assert(empty_label_at(s, 0));
        }
        if s.last() == '.' {
            assert(empty_label_at(s, s.len() as int));
        }
        assert forall|i: int| 0 < i < s.len() && #[trigger] s[i] == '.' && s[i - 1]
            == '.' implies has_empty_label(s) by {
            assert(empty_label_at(s, i));
        }
        assert forall|i: int| 0 < i < s.len() && #[trigger] s[i]
            == '*' implies misplaced_wildcard_at(s, i) by {}
        if s[0] == '*' && !(s.len() > 1 && s[1] == '.') {
            assert(misplaced_wildcard_at(s, 0));
        }
        if has_empty_label(s) {
            let i = choose|i: int| 0 <= i <= s.len() && #[trigger] empty_label_at(s, i);
            if 0 < i < s.len() {
                assert(s[i] == '.' && s[i - 1] == '.');
            }
        }
        if exists|i: int| 0 <= i < s.len() && #[trigger] misplaced_wildcard_at(s, i) {
            let i = choose|i: int| 0 <= i < s.len() && #[trigger] misplaced_wildcard_at(s, i);
            assert(s[i] == '*');
        }
    }
}

/// A name with an empty label has a dot at its beginning, at its end or behind
/// another one, or is empty.
pub proof fn law_which_names_have_empty_labels(s: Seq<char>)
    ensures
        has_empty_label(s) <==> s.len() == 0 || s[0] == '.' || s.last() == '.' || exists|i: int|
            0 < i < s.len() && #[trigger] s[i] == '.' && s[i - 1] == '.',
{
    if s.len() == 0 || s[0] == '.' {
        assert(empty_label_at(s, 0));
    } else if s.last() == '.' {
        assert(empty_label_at(s, s.len() as int));
    }
    if exists|i: int| 0 < i < s.len() && #[trigger] s[i] == '.' && s[i - 1] == '.' {
        let i = choose|i: int| 0 < i < s.len() && #[trigger] s[i] == '.' && s[i - 1] == '.';
        assert(empty_label_at(s, i));
    }
    if has_empty_label(s) {
        let i = choose|i: int| 0 <= i <= s.len() && #[trigger] empty_label_at(s, i);
        if 0 < i < s.len() {
            assert(s[i] == '.' && s[i - 1] == '.');
        }
    }
}

proof fn lemma_first_dot_behind(label: Seq<u8>, rest: Seq<u8>)
    requires
        !label.contains(46u8),
    ensures
        first_dot(label + seq![46u8] + rest) == Some(label.len() as int),
        first_dot(label) is None,
{
    let name = label + seq![46u8] + rest;
    lemma_first_dot(name);
    lemma_first_dot(label);
    assert(name[label.len() as int] == 46);
    if first_dot(label) is Some {
        assert(label.contains(label[first_dot(label)->0]));
    }
    match first_dot(name) {
        Some(i) => {
            if i < label.len() {
                assert(label[i] == name[i]);
                assert(label.contains(label[i]));
            }
        },
        None => {},
    }
}

/// What a client asks for is found under its own name; if not, then under the
/// name with an asterisk in place of the first label, where that is accepted;
/// and otherwise not at all. A name that begins with an asterisk is no client's.
pub proof fn law_where_a_name_is_found(
    keys: Set<Seq<u8>>,
    label: Seq<u8>,
    rest: Seq<u8>,
    accept_wildcard: bool,
)
    requires
        !label.contains(46u8),
        label != seq![42u8],
    ensures
        ({
            let name = label + seq![46u8] + rest;
            let wildcard = seq![42u8, 46u8] + rest;
            &&& keys.contains(name) ==> matched_key(keys, name, accept_wildcard) == Some(name)
            &&& !keys.contains(name) && accept_wildcard && keys.contains(wildcard)
                ==> matched_key(keys, name, accept_wildcard) == Some(wildcard)
            &&& !keys.contains(name) && !(accept_wildcard && keys.contains(wildcard))
                ==> matched_key(keys, name, accept_wildcard) is None
        }),
        keys.contains(label) ==> matched_key(keys, label, accept_wildcard) == Some(label),
        !keys.contains(label) ==> matched_key(keys, label, accept_wildcard) is None,
{
    let name = label + seq![46u8] + rest;
    let wildcard = seq![42u8, 46u8] + rest;
    lemma_first_dot_behind(label, rest);
    assert(seq![42u8] + name.skip(label.len() as int) =~= wildcard);
    if is_wildcard(name) {
        if label.len() == 1 {
            assert(label =~= seq![42u8]);
        } else if label.len() > 1 {
            assert(label[1] == name[1]);
            assert(label.contains(label[1]));
        } else {
            assert(name[0] == 46);
        }
    }
    if is_wildcard(label) {
        assert(label.contains(label[1]));
    }
}

/// Removing a route leaves the others, in their order, and none like it.
pub proof fn law_only_like_routes_are_removed(routes: Seq<RouteModel>, route: RouteModel)
    ensures
        without_route(routes, route) == routes.filter(|r: RouteModel| r != route),
        !without_route(routes, route).contains(route),
    decreases routes.len(),
{
    reveal(Seq::filter);
    if routes.len() > 0 {
        law_only_like_routes_are_removed(routes.drop_last(), route);
        let rest = without_route(routes.drop_last(), route);
        if without_route(routes, route).contains(route) {
            let i = without_route(routes, route).index_of(route);
            if i < rest.len() {
                assert(rest[i] == route);
                assert(rest.contains(route));
            }
        }
    }
}

/// A route comes behind those that there are under its name, which stay.
pub proof fn law_a_route_comes_last(routes: SniRoutes, name: Seq<u8>, route: RouteModel, i: int)
    ensures
        ({
            let after = routes.with_route(name, route);
            let had = routes.routes().dom().contains(name);
            &&& after.len() > 0 && after.last() == route
            &&& had ==> after.len() == routes.routes()[name].len() + 1
            &&& had && 0 <= i < routes.routes()[name].len() ==> after[i]
                == routes.routes()[name][i]
            &&& !had ==> after.len() == 1
        }),
{
}

/// Two routes overlap if both are for every protocol, or a protocol is named by
/// both; a route that names protocols does not overlap one for every protocol.
pub proof fn law_which_routes_overlap(a: RouteModel, b: RouteModel, protocol: Seq<u8>)
    ensures
        a.0 is None && b.0 is None ==> overlap(a, b),
        a.0 is None && b.0 is Some ==> !overlap(a, b),
        a.0 is Some && b.0 is Some && a.0->0.contains(protocol) && b.0->0.contains(protocol)
            ==> overlap(a, b),
        a.0 is Some && b.0 is Some && a.0->0.disjoint(b.0->0) ==> !overlap(a, b),
        overlap(a, b) == overlap(b, a),
{
    if a.0 is Some && b.0 is Some {
        if overlap(a, b) {
            let p = choose|p: Seq<u8>| #[trigger] a.0->0.contains(p) && b.0->0.contains(p);
            assert(b.0->0.contains(p) && a.0->0.contains(p));
        }
        if overlap(b, a) {
            let p = choose|p: Seq<u8>| #[trigger] b.0->0.contains(p) && a.0->0.contains(p);
            assert(a.0->0.contains(p) && b.0->0.contains(p));
        }
    }
}

/// Each flaw of a pattern is told in its own words.
pub proof fn law_how_flaws_of_patterns_are_told(error: SniPatternError)
    ensures
        error is Empty ==> error.text() == "the pattern is empty"@,
        error is NotAscii ==> error.text() == "the pattern must be ASCII"@,
        error is Slash ==> error.text() == "regex labels are not supported"@,
        error is EmptyLabel ==> error.text() == "a label is empty"@,
        error is MisplacedWildcard ==> error.text()
            == "a wildcard must be a single leading label"@,
{
}

} // verus!
