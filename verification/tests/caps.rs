//! Capability links, their scopes, and node ids.
use ce_pubsub::caps::{
    accept_root, authorize, authorize_control, authorize_publish, inspect_link, is_revoked, mint_link,
    owner_id, requester_id, revoked_links, topic_allows, verify_link, Judgement, Link, Question,
    ABILITY_PUBLISH, ABILITY_SUBSCRIBE,
};
use ce_pubsub::node_id::{parse_node_id, same_id};

fn link(abilities: &[&str], scope: Option<&str>) -> Link {
    Link {
        abilities: abilities.iter().map(|a| a.to_string()).collect(),
        path_prefix: scope.map(|s| s.to_string()),
    }
}

#[test]
fn topic_allows_prefix() {
    assert!(topic_allows("orders", "orders"));
    assert!(topic_allows("orders", "orders.eu"));
    assert!(topic_allows("", "anything"));
    assert!(!topic_allows("orders", "payments"));
}

#[test]
fn topic_allows_is_prefix_match() {
    let texts = ["", "a", "ab", "ab.c", "b", "abc", "\u{e9}", "\u{e9}t\u{e9}", "e"];
    for scope in texts {
        for topic in texts {
            assert_eq!(topic_allows(scope, topic), topic.starts_with(scope), "{scope} {topic}");
        }
    }
}

#[test]
fn parse_node_id_validates_length() {
    assert!(parse_node_id(&"ab".repeat(32)).is_ok()); // 64 hex chars
    assert!(parse_node_id("xyz").is_err());
    assert!(parse_node_id(&"ab".repeat(10)).is_err());
}

#[test]
fn node_id_is_trimmed_and_its_faults_are_told_apart() {
    let hex_id = format!("  {}\n", "0F".repeat(32));
    assert_eq!(parse_node_id(&hex_id).unwrap(), [15u8; 32]);
    assert_eq!(parse_node_id("xyz").unwrap_err().text, "node id is not valid hex");
    assert_eq!(
        parse_node_id("abcd").unwrap_err().text,
        "node id must be 32 bytes (64 hex chars)"
    );
    assert!(same_id(&[1; 32], &[1; 32]));
    let mut other = [1u8; 32];
    other[31] = 2;
    assert!(!same_id(&[1; 32], &other));
}

#[test]
fn minted_terms_are_those_asked_for() {
    let terms = mint_link([1; 32], [2; 32], ABILITY_PUBLISH, "orders", 500, 7);
    assert_eq!(terms.audience, [2; 32]);
    assert_eq!(terms.resource, [1; 32]);
    assert_eq!(terms.abilities, vec!["pubsub:publish".to_string()]);
    assert_eq!(terms.path_prefix.as_deref(), Some("orders"));
    assert_eq!(terms.not_after, 500);
    assert_eq!(terms.nonce, 7);
    assert_eq!(ABILITY_SUBSCRIBE, "pubsub:subscribe");
}

#[test]
fn inspection_reads_the_last_link() {
    let chain = vec![link(&["root"], Some("team")), link(&["a", "b"], Some("team/eu"))];
    let (abilities, scope) = inspect_link(Ok(chain)).unwrap();
    assert_eq!(abilities, vec!["a".to_string(), "b".to_string()]);
    assert_eq!(scope, "team/eu");
    assert_eq!(inspect_link(Ok(vec![link(&[], None)])).unwrap().1, "");
    assert_eq!(inspect_link(Ok(vec![])).unwrap_err().text, "empty capability chain");
    assert_eq!(
        inspect_link(Err("bad".to_string())).unwrap_err().text,
        "decoding capability link"
    );
}

#[test]
fn verification_reports_the_first_fault() {
    let good = || Ok(vec![link(&[ABILITY_PUBLISH], Some("orders"))]);
    assert_eq!(verify_link(good(), Ok(()), "orders.eu"), Ok(()));
    assert_eq!(
        verify_link(Err("garbage".to_string()), Err("refused".to_string()), "orders"),
        Err("garbage".to_string())
    );
    assert_eq!(
        verify_link(good(), Err("revoked".to_string()), "orders"),
        Err("revoked".to_string())
    );
    assert_eq!(verify_link(Ok(vec![]), Ok(()), "orders"), Err("empty chain".to_string()));
    assert_eq!(
        verify_link(Ok(vec![link(&[], None)]), Ok(()), "orders"),
        Err("link has no topic scope".to_string())
    );
    assert_eq!(
        verify_link(good(), Ok(()), "payments"),
        Err("link scope 'orders' does not cover topic 'payments'".to_string())
    );
}

#[test]
fn revocation_is_consulted_and_fails_closed() {
    let listed = vec![
        ("01".repeat(32), 9),
        ("not hex".to_string(), 1),
        ("02".repeat(32), 3),
    ];
    let revoked = revoked_links(Ok(listed)).unwrap();
    assert_eq!(revoked, vec![([1u8; 32], 9), ([2u8; 32], 3)]);
    assert!(is_revoked(&revoked, &[1; 32], 9));
    assert!(!is_revoked(&revoked, &[1; 32], 3));
    assert!(!is_revoked(&revoked, &[3; 32], 9));
    assert_eq!(
        revoked_links(Err("outage".to_string())),
        Err("cannot verify revocation (fail-closed): outage".to_string())
    );
}

#[test]
fn ids_of_both_sides_are_read() {
    assert_eq!(requester_id(&"03".repeat(32)), Ok([3u8; 32]));
    assert_eq!(
        requester_id("zz"),
        Err("bad publisher node id: node id is not valid hex".to_string())
    );
    assert_eq!(
        owner_id("00"),
        Err("bad owner node id: node id must be 32 bytes (64 hex chars)".to_string())
    );
}

#[test]
fn a_root_is_accepted_once() {
    let mut roots = Vec::new();
    assert!(accept_root(&mut roots, &"05".repeat(32)).is_ok());
    assert!(accept_root(&mut roots, &"05".repeat(32)).is_ok());
    assert!(accept_root(&mut roots, &"06".repeat(32)).is_ok());
    assert!(accept_root(&mut roots, "nonsense").is_err());
    assert_eq!(roots, vec![[5u8; 32], [6u8; 32]]);
}

#[test]
fn authorization_hands_on_what_it_has_read() {
    let requester = "01".repeat(32);
    let owner = "02".repeat(32);
    let listed = || Ok(vec![("03".repeat(32), 4)]);
    let chain = || Ok(vec![link(&[ABILITY_PUBLISH], Some("orders"))]);
    let question = |ability: &str| Question {
        owner: [2; 32],
        requester: [1; 32],
        revoked: vec![([3; 32], 4)],
        ability: ability.to_string(),
        token: "tok".to_string(),
    };
    let honored = authorize(&requester, &owner, listed(), "orders", "any", "tok", |q| {
        assert_eq!(q, question("any"));
        (chain(), Ok(()))
    });
    assert_eq!(honored, Ok(()));
    let refused = authorize(&requester, &owner, listed(), "orders", "any", "tok", |_| {
        (chain(), Err("revoked".to_string()))
    });
    assert_eq!(refused, Err("revoked".to_string()));
    let outside =
        authorize(&requester, &owner, listed(), "payments", "any", "tok", |_| (chain(), Ok(())));
    assert!(outside.is_err());
    // A publish is judged under one ability, a control request under the other.
    let publish = authorize_publish(&requester, &owner, listed(), "orders", "tok", |q| {
        assert_eq!(q, question("pubsub:publish"));
        (chain(), Ok(()))
    });
    assert_eq!(publish, Ok(()));
    let control = authorize_control(&requester, &owner, listed(), "orders", "tok", |q| {
        assert_eq!(q, question("pubsub:subscribe"));
        (chain(), Err("not granted".to_string()))
    });
    assert_eq!(control, Err("not granted".to_string()));
}

#[test]
fn authorization_fails_before_a_token_is_judged() {
    let id = "01".repeat(32);
    let never = |_: Question| -> Judgement { panic!("judged") };
    assert_eq!(
        authorize("x", &id, Ok(vec![]), "t", "any", "tok", never),
        Err("bad publisher node id: node id is not valid hex".to_string())
    );
    assert_eq!(
        authorize_publish(&id, "", Ok(vec![]), "t", "tok", never),
        Err("bad owner node id: node id must be 32 bytes (64 hex chars)".to_string())
    );
    assert_eq!(
        authorize_control(&id, &id, Err("outage".to_string()), "t", "tok", never),
        Err("cannot verify revocation (fail-closed): outage".to_string())
    );
}
