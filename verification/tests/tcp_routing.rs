use sozu_lib::alpn::{alpn_matcher_protocols, known_alpn_label, route_key_and_matcher, AlpnMatcher};
use sozu_lib::net::SocketAddr;
use sozu_lib::sni_routes::{validate_sni_pattern, SniPatternError, SniRoutes};
use sozu_lib::table::Table;
use sozu_lib::tcp_listener::{
    effective_sni_preread_max_bytes, ProxyError, RequestTcpFrontend, TcpListener,
    TcpListenerConfig, DEFAULT_SNI_PREREAD_MAX_BYTES, MIN_SNI_PREREAD_MAX_BYTES,
};
use sozu_lib::tcp_proxy::TcpProxy;
use sozu_lib::tcp_tags::sni_tags_key;
use sozu_lib::Token;

fn address() -> SocketAddr {
    SocketAddr::v4(127, 0, 0, 1, 8080)
}

fn address_text() -> String {
    "127.0.0.1:8080".to_owned()
}

fn config() -> TcpListenerConfig {
    TcpListenerConfig {
        address: address(),
        public_address: None,
        expect_proxy: false,
        front_timeout: 60,
        back_timeout: 30,
        connect_timeout: 3,
        sni_preread_timeout: None,
        sni_preread_max_bytes: None,
    }
}

fn test_listener() -> TcpListener {
    TcpListener::new(config(), address_text(), Token(0))
}

fn test_proxy() -> TcpProxy {
    let mut proxy = TcpProxy::new();
    proxy
        .add_listener(config(), address_text(), Token(0))
        .expect("could not add listener");
    proxy
}

fn texts(alpn: &[&str]) -> Vec<String> {
    alpn.iter().map(|p| p.to_string()).collect()
}

fn frontend(cluster_id: &str, sni: Option<&str>, alpn: &[&str]) -> RequestTcpFrontend {
    RequestTcpFrontend {
        cluster_id: cluster_id.to_owned(),
        address: address(),
        tags: Table::new(),
        sni: sni.map(str::to_owned),
        alpn: texts(alpn),
    }
}

fn tagged(
    cluster_id: &str,
    sni: Option<&str>,
    alpn: &[&str],
    tag: (&str, &str),
) -> RequestTcpFrontend {
    let mut tags = Table::new();
    tags.insert(tag.0.to_owned(), tag.1.to_owned());
    RequestTcpFrontend {
        tags,
        ..frontend(cluster_id, sni, alpn)
    }
}

fn route(listener: &mut TcpListener, sni: &str, alpn: &[&str], cluster_id: &str) {
    listener
        .insert_sni_route(sni.to_owned(), texts(alpn), cluster_id.to_owned())
        .expect("insert_sni_route must succeed for a valid test SNI");
}

fn one_of(alpn: &[&str]) -> AlpnMatcher {
    AlpnMatcher::one_of(alpn.iter().map(|p| p.as_bytes().to_vec()).collect())
}

fn tag_of(listener: &TcpListener, key: &String, tag: &str) -> Option<String> {
    listener
        .get_tags(key)
        .and_then(|tags| tags.get(&tag.to_owned()))
        .map(|value| value.to_owned())
}

fn invalid(result: Result<(), ProxyError>) -> String {
    match result {
        Err(ProxyError::InvalidTcpFrontend { reason, .. }) => reason,
        other => panic!("expected InvalidTcpFrontend, got {other:?}"),
    }
}

// ---- effective_sni_preread_max_bytes ------------------------------

#[test]
fn effective_max_bytes_falls_back_to_default_when_unconfigured() {
    assert_eq!(
        effective_sni_preread_max_bytes(None, 65536),
        DEFAULT_SNI_PREREAD_MAX_BYTES as usize
    );
}

#[test]
fn effective_max_bytes_is_the_min_of_knob_and_capacity() {
    assert_eq!(effective_sni_preread_max_bytes(Some(8192), 16384), 8192);
    assert_eq!(effective_sni_preread_max_bytes(Some(32768), 16384), 16384);
    assert_eq!(effective_sni_preread_max_bytes(Some(16384), 16384), 16384);
}

#[test]
fn effective_max_bytes_never_below_the_floor() {
    assert_eq!(
        effective_sni_preread_max_bytes(Some(0), 16384),
        MIN_SNI_PREREAD_MAX_BYTES as usize,
        "a 0 knob must degrade to the floor, never 0 (would spin the preread)"
    );
    assert_eq!(
        effective_sni_preread_max_bytes(Some(3), 16384),
        MIN_SNI_PREREAD_MAX_BYTES as usize,
        "any sub-floor knob must be raised to the floor"
    );
    assert_eq!(
        effective_sni_preread_max_bytes(Some(MIN_SNI_PREREAD_MAX_BYTES), 16384),
        MIN_SNI_PREREAD_MAX_BYTES as usize
    );
    assert_eq!(
        effective_sni_preread_max_bytes(Some(MIN_SNI_PREREAD_MAX_BYTES + 1), 16384),
        (MIN_SNI_PREREAD_MAX_BYTES + 1) as usize
    );
}

// ---- known_alpn_label (access-log tagging) -------------------------

#[test]
fn known_alpn_label_picks_the_clients_first_offer() {
    assert_eq!(
        known_alpn_label(&[b"h2".to_vec(), b"http/1.1".to_vec()]),
        Some("h2")
    );
    assert_eq!(
        known_alpn_label(&[b"http/1.1".to_vec(), b"h2".to_vec()]),
        Some("http/1.1"),
        "client preference order must win, not a fixed h2-first priority"
    );
}

#[test]
fn known_alpn_label_is_none_for_empty_or_unrecognized_offers() {
    assert_eq!(known_alpn_label(&[]), None);
    assert_eq!(known_alpn_label(&[b"spdy/1".to_vec()]), None);
}

#[test]
fn known_alpn_label_looks_at_the_first_offer_alone() {
    assert_eq!(
        known_alpn_label(&[b"spdy/1".to_vec(), b"h2".to_vec()]),
        None
    );
}

// ---- AlpnMatcher mapping + route-table add/remove symmetry --------

#[test]
fn empty_alpn_maps_to_any_non_empty_maps_to_one_of() {
    let mut listener = test_listener();
    route(&mut listener, "example.com", &[], "cluster-any");
    route(&mut listener, "h2.example.com", &["h2", "http/1.1"], "cluster-h2");

    let (_, any_entries) = listener
        .sni_routes
        .domain_lookup(b"example.com", true)
        .expect("example.com must be routable");
    assert_eq!(
        any_entries,
        &vec![(AlpnMatcher::Any, "cluster-any".to_owned())]
    );

    let (_, h2_entries) = listener
        .sni_routes
        .domain_lookup(b"h2.example.com", true)
        .expect("h2.example.com must be routable");
    assert_eq!(
        h2_entries,
        &vec![(
            AlpnMatcher::OneOf(vec![b"h2".to_vec(), b"http/1.1".to_vec()]),
            "cluster-h2".to_owned()
        )]
    );
}

#[test]
fn insert_sni_route_appends_under_the_same_sni() {
    let mut listener = test_listener();
    route(&mut listener, "example.com", &["h2"], "cluster-h2");
    route(&mut listener, "example.com", &[], "cluster-default");

    let (_, entries) = listener
        .sni_routes
        .domain_lookup(b"example.com", true)
        .expect("example.com must be routable");
    assert_eq!(entries.len(), 2, "both fronts must share the SNI's Vec");
}

#[test]
fn remove_sni_route_drops_only_the_matching_entry() {
    let mut listener = test_listener();
    route(&mut listener, "example.com", &["h2"], "cluster-h2");
    route(&mut listener, "example.com", &[], "cluster-default");

    listener.remove_sni_route(
        "example.com".to_owned(),
        vec!["h2".to_owned()],
        &"cluster-h2".to_owned(),
    );

    let (_, entries) = listener
        .sni_routes
        .domain_lookup(b"example.com", true)
        .expect("example.com must still be routable via the remaining entry");
    assert_eq!(
        entries,
        &vec![(AlpnMatcher::Any, "cluster-default".to_owned())],
        "removing one entry must not disturb the other"
    );
}

#[test]
fn remove_sni_route_empties_the_trie_key_when_the_last_entry_goes() {
    let mut listener = test_listener();
    route(&mut listener, "example.com", &[], "cluster-a");
    assert!(!listener.sni_routes.is_empty());

    listener.remove_sni_route("example.com".to_owned(), vec![], &"cluster-a".to_owned());

    assert!(
        listener.sni_routes.is_empty(),
        "the last entry of a name must take the name with it"
    );
    assert!(listener
        .sni_routes
        .domain_lookup(b"example.com", true)
        .is_none());
}

#[test]
fn remove_sni_route_on_an_absent_sni_is_a_harmless_no_op() {
    let mut listener = test_listener();
    route(&mut listener, "example.com", &[], "cluster-a");

    listener.remove_sni_route(
        "other.example.net".to_owned(),
        vec![],
        &"cluster-a".to_owned(),
    );

    assert!(listener
        .sni_routes
        .domain_lookup(b"example.com", true)
        .is_some());
}

#[test]
fn insert_sni_route_creates_a_distinct_node_for_an_exact_key_over_a_sibling_wildcard() {
    let mut listener = test_listener();
    route(&mut listener, "*.example.com", &[], "cluster-wildcard");
    route(&mut listener, "a.example.com", &["h2"], "cluster-a-h2");

    let (_, a_entries) = listener
        .sni_routes
        .domain_lookup(b"a.example.com", false)
        .expect("a.example.com must have a distinct exact-key node");
    assert_eq!(
        a_entries,
        &vec![(one_of(&["h2"]), "cluster-a-h2".to_owned())],
        "the exact key's own Vec must hold only its own entry, not the wildcard's"
    );

    let (_, b_entries) = listener
        .sni_routes
        .domain_lookup(b"b.example.com", true)
        .expect("b.example.com must fall back to the wildcard catch-all");
    assert_eq!(
        b_entries,
        &vec![(AlpnMatcher::Any, "cluster-wildcard".to_owned())],
        "an unrelated subdomain must see ONLY the wildcard's entry"
    );
}

#[test]
fn validate_new_tcp_front_accepts_an_exact_catch_all_sibling_of_a_wildcard_catch_all() {
    let mut listener = test_listener();
    route(&mut listener, "*.example.com", &[], "cluster-wildcard");

    let front = frontend("cluster-a", Some("a.example.com"), &[]);
    assert!(
        listener.validate_new_tcp_front(&front).is_ok(),
        "an exact catch-all must be accepted when only a SIBLING wildcard has a catch-all"
    );
}

#[test]
fn validate_new_tcp_front_rejects_a_duplicate_wildcard_catch_all() {
    let mut listener = test_listener();
    route(&mut listener, "*.example.com", &[], "cluster-wildcard");

    let front = frontend("cluster-dup", Some("*.example.com"), &[]);
    assert!(
        listener.validate_new_tcp_front(&front).is_err(),
        "a second catch-all on the same wildcard SNI must be rejected as a duplicate"
    );
}

#[test]
fn validate_new_tcp_front_rejects_overlapping_alpn_on_the_same_wildcard() {
    let mut listener = test_listener();
    route(&mut listener, "*.example.com", &["h2"], "cluster-wildcard-h2");

    let front = frontend("cluster-dup", Some("*.example.com"), &["h2"]);
    assert!(
        listener.validate_new_tcp_front(&front).is_err(),
        "an overlapping ALPN matcher on the same wildcard SNI must be rejected"
    );
}

#[test]
fn validate_new_tcp_front_accepts_a_disjoint_alpn_addition_on_the_same_wildcard() {
    let mut listener = test_listener();
    route(&mut listener, "*.example.com", &[], "cluster-wildcard");

    let front = frontend("cluster-h2", Some("*.example.com"), &["h2"]);
    assert!(
        listener.validate_new_tcp_front(&front).is_ok(),
        "a disjoint ALPN addition on the same wildcard SNI must be accepted"
    );
}

#[test]
fn validate_new_tcp_front_rejects_malformed_sni_shapes() {
    let listener = test_listener();

    for bad in [
        "/[a-z]+/.example.com",
        "foo/bar.example.com",
        "a.*.example.com",
        "*.*.example.com",
        "*",
    ] {
        let front = frontend("cluster-a", Some(bad), &[]);
        assert!(
            listener.validate_new_tcp_front(&front).is_err(),
            "malformed SNI shape {bad:?} must be rejected at the worker boundary"
        );
    }

    for good in ["a.example.com", "*.example.com"] {
        let front = frontend("cluster-a", Some(good), &[]);
        assert!(
            listener.validate_new_tcp_front(&front).is_ok(),
            "legal SNI shape {good:?} must still be accepted"
        );
    }
}

#[test]
fn add_tcp_front_enforces_the_shared_sni_validator_at_the_worker_boundary() {
    let mut proxy = test_proxy();

    for bad in [
        ".example.com",
        "example.com.",
        "a..b.example.com",
        "",
        "exämple.com",
    ] {
        let front = frontend("cluster-a", Some(bad), &[]);
        match proxy.add_tcp_front(front) {
            Err(ProxyError::InvalidTcpFrontend { .. }) => {}
            other => panic!("malformed sni {bad:?} must be rejected, got {other:?}"),
        }

        let listener = &proxy.listeners[0];
        assert!(
            listener.sni_routes.is_empty(),
            "a rejected sni {bad:?} must leave sni_routes empty"
        );
        assert!(
            listener.cluster_id.is_none(),
            "a rejected sni {bad:?} must leave cluster_id unset"
        );
    }

    let space_front = frontend("cluster-space", Some("exa mple.com"), &[]);
    assert!(
        proxy.add_tcp_front(space_front).is_ok(),
        "the shared SNI validator does not reject an embedded space -- \
         it is valid ASCII with no empty label"
    );
}

#[test]
fn each_malformed_pattern_has_its_own_error() {
    assert_eq!(validate_sni_pattern(""), Err(SniPatternError::Empty));
    assert_eq!(
        validate_sni_pattern("exämple.com"),
        Err(SniPatternError::NotAscii)
    );
    assert_eq!(validate_sni_pattern("a/b.com"), Err(SniPatternError::Slash));
    assert_eq!(
        validate_sni_pattern("a..b"),
        Err(SniPatternError::EmptyLabel)
    );
    assert_eq!(
        validate_sni_pattern("a.*.b"),
        Err(SniPatternError::MisplacedWildcard)
    );
    assert_eq!(
        validate_sni_pattern("*.Example.COM"),
        Ok("*.example.com".to_owned())
    );
}

// ---- per-frontend access-log tags keying ----

#[test]
fn sni_fronts_keep_distinct_tags_under_distinct_keys() {
    let mut proxy = test_proxy();
    let front_a = tagged("cluster-a", Some("a.example.com"), &[], ("team", "alpha"));
    let front_b = tagged("cluster-b", Some("b.example.com"), &["h2"], ("team", "beta"));
    proxy
        .add_tcp_front(front_a)
        .expect("add_tcp_front A must succeed");
    proxy
        .add_tcp_front(front_b)
        .expect("add_tcp_front B must succeed");

    let key_a = sni_tags_key(&address_text(), "a.example.com", &vec![]);
    let key_b = sni_tags_key(&address_text(), "b.example.com", &texts(&["h2"]));

    let listener = &proxy.listeners[0];
    assert_eq!(
        tag_of(listener, &key_a, "team").as_deref(),
        Some("alpha"),
        "front A's tags must survive front B's add, not be clobbered by it"
    );
    assert_eq!(tag_of(listener, &key_b, "team").as_deref(), Some("beta"));
}

#[test]
fn removing_one_sni_front_clears_only_its_own_tags() {
    let mut proxy = test_proxy();
    proxy
        .add_tcp_front(tagged(
            "cluster-a",
            Some("a.example.com"),
            &[],
            ("team", "alpha"),
        ))
        .expect("add_tcp_front A must succeed");
    proxy
        .add_tcp_front(tagged(
            "cluster-b",
            Some("b.example.com"),
            &["h2"],
            ("team", "beta"),
        ))
        .expect("add_tcp_front B must succeed");

    proxy
        .remove_tcp_front(tagged(
            "cluster-a",
            Some("a.example.com"),
            &[],
            ("team", "alpha"),
        ))
        .expect("remove_tcp_front A must succeed");

    let key_a = sni_tags_key(&address_text(), "a.example.com", &vec![]);
    let key_b = sni_tags_key(&address_text(), "b.example.com", &texts(&["h2"]));

    let listener = &proxy.listeners[0];
    assert!(
        listener.get_tags(&key_a).is_none(),
        "removing front A must clear its own tags entry"
    );
    assert!(
        listener.get_tags(&key_b).is_some(),
        "removing front A must NOT clear sibling front B's tags"
    );
}

#[test]
fn route_time_tags_key_rebuild_matches_the_add_time_key() {
    let address = "127.0.0.1:9000".to_owned();

    let add_time = sni_tags_key(&address, "*.Example.COM", &texts(&["http/1.1", "h2"]));
    let matcher = one_of(&["h2", "http/1.1"]);
    let route_time = sni_tags_key(
        &address,
        "*.example.com",
        &alpn_matcher_protocols(&matcher),
    );
    assert_eq!(
        add_time, route_time,
        "add-time and route-time keys must agree for the same front"
    );

    assert_eq!(
        sni_tags_key(&address, "a.example.com", &vec![]),
        sni_tags_key(
            &address,
            "a.example.com",
            &alpn_matcher_protocols(&AlpnMatcher::Any)
        )
    );

    assert_ne!(add_time, address);
}

#[test]
fn alpn_sets_differing_only_by_an_embedded_separator_get_distinct_tags_keys() {
    let address = "127.0.0.1:9001".to_owned();
    let key_joined = sni_tags_key(&address, "example.com", &texts(&["a,b"]));
    let key_split = sni_tags_key(&address, "example.com", &texts(&["a", "b"]));
    assert_ne!(
        key_joined, key_split,
        "a single \"a,b\" protocol must not collide with the disjoint [\"a\", \"b\"] pair"
    );
}

#[test]
fn alpn_sets_differing_only_by_an_embedded_separator_keep_distinct_tags() {
    let mut proxy = test_proxy();
    let joined = || {
        tagged(
            "cluster-joined",
            Some("example.com"),
            &["a,b"],
            ("variant", "joined"),
        )
    };
    let split = || {
        tagged(
            "cluster-split",
            Some("example.com"),
            &["a", "b"],
            ("variant", "split"),
        )
    };

    proxy
        .add_tcp_front(joined())
        .expect("the single \"a,b\" protocol front must be accepted");
    proxy.add_tcp_front(split()).expect(
        "the disjoint [\"a\", \"b\"] front must be accepted -- it is NOT the same ALPN \
             set as [\"a,b\"]",
    );

    let key_joined = sni_tags_key(&address_text(), "example.com", &texts(&["a,b"]));
    let key_split = sni_tags_key(&address_text(), "example.com", &texts(&["a", "b"]));
    assert_ne!(key_joined, key_split);

    assert_eq!(
        tag_of(&proxy.listeners[0], &key_joined, "variant").as_deref(),
        Some("joined"),
        "the joined front's tags must live under its own composed key"
    );
    assert_eq!(
        tag_of(&proxy.listeners[0], &key_split, "variant").as_deref(),
        Some("split"),
        "the split front's tags must live under its own DISTINCT composed key"
    );

    proxy
        .remove_tcp_front(joined())
        .expect("remove the joined front");

    assert!(
        proxy.listeners[0].get_tags(&key_joined).is_none(),
        "removing the joined front must clear its own tags entry"
    );
    assert_eq!(
        tag_of(&proxy.listeners[0], &key_split, "variant").as_deref(),
        Some("split"),
        "removing the joined front must not disturb its sibling's tags"
    );
}

#[test]
fn a_tags_key_is_composed_of_the_address_the_name_and_the_protocols() {
    assert_eq!(
        sni_tags_key(
            &"127.0.0.1:9000".to_owned(),
            "*.Example.COM",
            &texts(&["http/1.1", "h2", "h2"])
        ),
        "14:127.0.0.1:9000|13:*.example.com2:h28:http/1.1"
    );
}

#[test]
fn remove_sni_route_for_an_absent_exact_key_does_not_strip_a_sibling_wildcards_entry() {
    let mut listener = test_listener();
    route(&mut listener, "*.example.com", &[], "cluster-wildcard");

    listener.remove_sni_route(
        "a.example.com".to_owned(),
        vec![],
        &"cluster-wildcard".to_owned(),
    );

    let (_, wildcard_entries) = listener
        .sni_routes
        .domain_lookup(b"b.example.com", true)
        .expect("the wildcard catch-all must survive a remove targeting an unrelated exact key");
    assert_eq!(
        wildcard_entries,
        &vec![(AlpnMatcher::Any, "cluster-wildcard".to_owned())]
    );
}

// ---- routing gate data invariant: never both cluster_id AND routes ----

#[test]
fn a_no_sni_front_leaves_the_route_table_empty() {
    let mut listener = test_listener();
    listener.cluster_id = Some("legacy-catch-all".to_owned());
    assert!(
        listener.sni_routes.is_empty(),
        "a listener with only a no-SNI front must never populate sni_routes"
    );
}

#[test]
fn an_sni_scoped_front_leaves_cluster_id_unset() {
    let mut listener = test_listener();
    route(&mut listener, "example.com", &[], "cluster-a");
    assert!(
        listener.cluster_id.is_none(),
        "a listener with only SNI-scoped fronts must never populate the legacy cluster_id"
    );
}

// ---- end-to-end through TcpProxy::add_tcp_front / remove_tcp_front ----

#[test]
fn add_then_remove_sni_front_round_trips_through_tcp_proxy() {
    let mut proxy = test_proxy();
    let token = Token(0);

    proxy
        .add_tcp_front(frontend("cluster-a", Some("Example.COM"), &[]))
        .expect("add_tcp_front must succeed");

    {
        let listener = &proxy.listeners[0];
        assert!(listener.cluster_id.is_none());
        let (_, entries) = listener
            .sni_routes
            .domain_lookup(b"example.com", true)
            .expect("example.com must be routable after add_tcp_front");
        assert_eq!(entries, &vec![(AlpnMatcher::Any, "cluster-a".to_owned())]);
    }
    assert_eq!(proxy.fronts.get(&"cluster-a".to_owned()), Some(&token));

    proxy
        .remove_tcp_front(frontend("cluster-a", Some("Example.COM"), &[]))
        .expect("remove_tcp_front must succeed");

    assert!(
        proxy.listeners[0].sni_routes.is_empty(),
        "remove_tcp_front must leave no stranded route"
    );
    assert_eq!(
        proxy.fronts.get(&"cluster-a".to_owned()),
        None,
        "remove_tcp_front must undo add_tcp_front's self.fronts bookkeeping"
    );
}

#[test]
fn add_then_remove_legacy_no_sni_front_round_trips() {
    let mut proxy = test_proxy();

    proxy
        .add_tcp_front(frontend("cluster-legacy", None, &[]))
        .expect("add_tcp_front must succeed");

    assert_eq!(
        proxy.listeners[0].cluster_id,
        Some("cluster-legacy".to_owned())
    );

    proxy
        .remove_tcp_front(frontend("cluster-legacy", None, &[]))
        .expect("remove_tcp_front must succeed");

    assert_eq!(proxy.listeners[0].cluster_id, None);
    assert_eq!(proxy.fronts.get(&"cluster-legacy".to_owned()), None);
}

// ---- add_tcp_front hard-rejects routing-corrupting requests --------

#[test]
fn add_tcp_front_rejects_alpn_without_sni() {
    let mut proxy = test_proxy();
    let _ = invalid(proxy.add_tcp_front(frontend("cluster-a", None, &["h2"])));
}

#[test]
fn add_tcp_front_rejects_no_sni_front_on_listener_with_sni_routes() {
    let mut proxy = test_proxy();
    proxy
        .add_tcp_front(frontend("cluster-a", Some("example.com"), &[]))
        .expect("the first, SNI-scoped frontend must be accepted");
    let _ = invalid(proxy.add_tcp_front(frontend("cluster-b", None, &[])));
}

#[test]
fn add_tcp_front_rejects_sni_front_on_listener_with_no_sni_cluster() {
    let mut proxy = test_proxy();
    proxy
        .add_tcp_front(frontend("cluster-a", None, &[]))
        .expect("the first, no-SNI frontend must be accepted");
    let _ = invalid(proxy.add_tcp_front(frontend("cluster-b", Some("example.com"), &[])));
}

#[test]
fn add_tcp_front_rejects_alpn_overlap_on_same_sni() {
    let mut proxy = test_proxy();
    proxy
        .add_tcp_front(frontend("cluster-a", Some("example.com"), &["h2"]))
        .expect("the first frontend must be accepted");
    let reason = invalid(proxy.add_tcp_front(frontend(
        "cluster-b",
        Some("example.com"),
        &["h2", "http/1.1"],
    )));
    assert!(reason.contains("\"h2\""), "{reason}");
    assert!(reason.contains("\"example.com\""), "{reason}");
}

#[test]
fn add_tcp_front_rejects_duplicate_catch_all_on_same_sni() {
    let mut proxy = test_proxy();
    proxy
        .add_tcp_front(frontend("cluster-a", Some("example.com"), &[]))
        .expect("the first catch-all frontend must be accepted");
    let _ = invalid(proxy.add_tcp_front(frontend("cluster-b", Some("example.com"), &[])));
}

#[test]
fn add_tcp_front_accepts_disjoint_alpn_and_catch_all_on_same_sni() {
    let mut proxy = test_proxy();
    proxy
        .add_tcp_front(frontend("cluster-h2", Some("example.com"), &["h2"]))
        .expect("disjoint alpn frontend must be accepted");
    proxy
        .add_tcp_front(frontend(
            "cluster-http11",
            Some("example.com"),
            &["http/1.1"],
        ))
        .expect("second disjoint alpn frontend must be accepted");
    proxy
        .add_tcp_front(frontend("cluster-default", Some("example.com"), &[]))
        .expect("a catch-all alongside specific-protocol entries must be accepted");
}

// ---- names, keys and matchers -------------------------------------

#[test]
fn a_route_key_is_the_lowercase_name() {
    let (key, matcher) = route_key_and_matcher("WWW.Example.com", texts(&["h2", "h2", "b"]));
    assert_eq!(key, b"www.example.com".to_vec());
    assert_eq!(
        matcher,
        AlpnMatcher::OneOf(vec![b"b".to_vec(), b"h2".to_vec()])
    );
    assert_eq!(route_key_and_matcher("a", vec![]).1, AlpnMatcher::Any);
}

#[test]
fn protocols_that_are_no_text_are_shown_with_a_replacement() {
    let matcher = AlpnMatcher::one_of(vec![vec![0x68, 0xff]]);
    assert_eq!(
        alpn_matcher_protocols(&matcher),
        vec!["h\u{fffd}".to_owned()]
    );
}

#[test]
fn an_exact_name_comes_before_a_wildcard_and_a_wildcard_covers_one_label() {
    let mut routes = SniRoutes::new();
    routes.insert(b"*.example.com".to_vec(), AlpnMatcher::Any, "wild".to_owned());
    routes.insert(b"a.example.com".to_vec(), AlpnMatcher::Any, "exact".to_owned());
    let (key, found) = routes.domain_lookup(b"a.example.com", true).unwrap();
    assert_eq!(key, b"a.example.com".to_vec());
    assert_eq!(found[0].1, "exact");
    let (key, found) = routes.domain_lookup(b"b.example.com", true).unwrap();
    assert_eq!(key, b"*.example.com".to_vec());
    assert_eq!(found[0].1, "wild");
    assert!(routes.domain_lookup(b"b.example.com", false).is_none());
    assert!(routes.domain_lookup(b"c.b.example.com", true).is_none());
    assert!(routes.domain_lookup(b"example.com", true).is_none());
}

#[test]
fn a_malformed_name_gets_no_route() {
    let mut listener = test_listener();
    let refused = listener.insert_sni_route(".example.com".to_owned(), vec![], "c".to_owned());
    assert_eq!(
        invalid(refused),
        "internal error: the route table rejected sni \".example.com\" despite passing shape \
         validation"
    );
    assert!(listener.sni_routes.is_empty());
    assert!(listener.insert_sni_route(String::new(), vec![], "c".to_owned()).is_err());
    assert!(listener.insert_sni_route("a..b".to_owned(), vec![], "c".to_owned()).is_err());
    assert!(listener.insert_sni_route("a.b.".to_owned(), vec![], "c".to_owned()).is_err());
    assert!(listener.sni_routes.is_empty());
}

#[test]
fn a_name_without_empty_labels_is_kept_even_if_no_front_may_have_it() {
    let mut listener = test_listener();
    for name in ["/[a-z]+/.example.com", "a.*.example.com"] {
        let front = frontend("c", Some(name), &[]);
        assert!(listener.validate_new_tcp_front(&front).is_err());
        assert!(listener
            .insert_sni_route(name.to_owned(), vec![], "c".to_owned())
            .is_ok());
        assert!(listener.sni_routes.domain_lookup(name.as_bytes(), false).is_some());
    }
}

#[test]
fn no_two_fronts_have_the_same_key() {
    let address = address_text();
    assert_ne!(
        sni_tags_key(&address, "x", &texts(&["a|"])),
        sni_tags_key(&address, "x|2:a", &vec![])
    );
    assert_ne!(
        sni_tags_key(&address, "x|", &vec![]),
        sni_tags_key(&address, "x", &vec![])
    );
    assert_ne!(
        sni_tags_key(&"a|b".to_owned(), "c", &vec![]),
        sni_tags_key(&"a".to_owned(), "b|c", &vec![])
    );
}
