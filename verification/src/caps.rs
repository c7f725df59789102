//! Capability-gated publish and subscribe.
//!
//! Access to a topic is granted by a signed capability chain whose abilities are `pubsub:publish` or
//! `pubsub:subscribe` and whose caveats carry the expiry and the topic scope. Signatures,
//! attenuation, expiry and revocation are verified by the capability system; this module says what a
//! link grants, what its scope covers, and what is made of the verdict.
use vstd::prelude::*;

use crate::error::PubSubError;
use crate::message;
use crate::node_id;
use crate::node_id::NodeId;
use crate::text;

verus! {

/// Ability: append messages to the scoped topic.
pub const ABILITY_PUBLISH: &'static str = "pubsub:publish";

/// Ability: read, pull and replay messages from the scoped topic.
pub const ABILITY_SUBSCRIBE: &'static str = "pubsub:subscribe";

/// Whether a capability scoped to `scope_topic` permits access to `topic`: whether the topic starts
/// with the scope. An empty scope covers every topic.
pub fn topic_allows(scope_topic: &str, topic: &str) -> (b: bool)
    ensures
        b == text::has_prefix(topic@, scope_topic@),
{
    text::starts_with(topic, scope_topic)
}

/// The terms of an access link: what its issuer signs.
#[derive(Debug, Clone, PartialEq, Eq)]
pub struct LinkTerms {
    /// The holder that the link is issued to.
    pub audience: NodeId,
    /// The abilities that it grants.
    pub abilities: Vec<String>,
    /// The node whose topics it is about.
    pub resource: NodeId,
    /// Until when it is valid, in unix seconds; 0 for ever.
    pub not_after: u64,
    /// The topic scope.
    pub path_prefix: Option<String>,
    /// A number that tells the issuer's links apart, so that each can be revoked.
    pub nonce: u64,
}

/// The terms of a single self-issued link of `owner` that grants `ability` on the topics under
/// `scope_topic` to `audience`, valid until `not_after`.
pub fn mint_link(
    owner: NodeId,
    audience: NodeId,
    ability: &str,
    scope_topic: &str,
    not_after: u64,
    nonce: u64,
) -> (t: LinkTerms)
    ensures
        t.audience == audience,
        t.abilities@.len() == 1,
        t.abilities@[0]@ == ability@,
        t.resource == owner,
        t.not_after == not_after,
        message::opt_text(t.path_prefix) == Some(scope_topic@),
        t.nonce == nonce,
{
    let mut abilities: Vec<String> = Vec::new();
    abilities.push(ability.to_owned());
    LinkTerms {
        audience,
        abilities,
        resource: owner,
        not_after,
        path_prefix: Some(scope_topic.to_owned()),
        nonce,
    }
}

/// One link of a decoded capability chain, as far as this library reads it.
#[derive(Debug, Clone, PartialEq, Eq)]
pub struct Link {
    /// The abilities that the link grants.
    pub abilities: Vec<String>,
    /// The topic scope, where the link has one.
    pub path_prefix: Option<String>,
}

/// What a link stands for.
#[verifier::ext_equal]
pub struct LinkView {
    pub abilities: Seq<Seq<char>>,
    pub path_prefix: Option<Seq<char>>,
}

impl View for Link {
    type V = LinkView;

    open spec fn view(&self) -> LinkView {
        LinkView {
            abilities: self.abilities@.map_values(|a: String| a@),
            path_prefix: message::opt_text(self.path_prefix),
        }
    }
}

/// The abilities and the topic scope of the last link of a chain, for inspection. A chain that could
/// not be decoded and an empty chain are refused; a link without a scope has the empty one. The
/// error names the step that failed; why the chain could not be decoded the caller knows.
pub fn inspect_link(chain: Result<Vec<Link>, String>) -> (r: Result<
    (Vec<String>, String),
    PubSubError,
>)
    ensures
        match (chain, r) {
            (Err(_), Err(e)) => e@ == "decoding capability link"@,
            (Ok(links), Err(e)) => links@.len() == 0 && e@ == "empty capability chain"@,
            (Ok(links), Ok((abilities, scope))) => {
                &&& links@.len() > 0
                &&& abilities@.map_values(|a: String| a@) == links@.last()@.abilities
                &&& scope@ == match links@.last()@.path_prefix {
                    Some(s) => s,
                    None => Seq::<char>::empty(),
                }
            },
            _ => false,
        },
{
    let links: Vec<Link> = match chain {
        Ok(links) => links,
        Err(_) => {
            return Err(PubSubError::new("decoding capability link".to_owned()));
        },
    };
    if links.len() == 0 {
        return Err(PubSubError::new("empty capability chain".to_owned()));
    }
    let leaf: &Link = &links[links.len() - 1];
    let mut abilities: Vec<String> = Vec::new();
    let mut i: usize = 0;
    while i < leaf.abilities.len()
        invariant
            i <= leaf.abilities@.len(),
            abilities@.len() == i,
            forall|j: int| 0 <= j < i ==> (#[trigger] abilities@[j])@ == leaf.abilities@[j]@,
        decreases leaf.abilities@.len() - i,
    {
        abilities.push(leaf.abilities[i].clone());
        i = i + 1;
    }
    assert(abilities@.map_values(|a: String| a@) =~= leaf@.abilities);
    let scope: String = match &leaf.path_prefix {
        Some(s) => s.clone(),
        None => String::new(),
    };
    Ok((abilities, scope))
}

/// Why a presented link is refused on `topic`: its chain could not be decoded, the capability system
/// refused it, it is empty, or its last link has no scope or one that does not cover the topic.
pub open spec fn link_fault(
    chain: Result<Seq<LinkView>, Seq<char>>,
    verdict: Result<(), Seq<char>>,
    topic: Seq<char>,
) -> Option<Seq<char>> {
    match (chain, verdict) {
        (Err(why), _) => Some(why),
        (_, Err(why)) => Some(why),
        (Ok(links), _) => if links.len() == 0 {
            Some("empty chain"@)
        } else {
            match links.last().path_prefix {
                None => Some("link has no topic scope"@),
                Some(scope) => if text::has_prefix(topic, scope) {
                    None
                } else {
                    Some(
                        "link scope '"@ + scope + "' does not cover topic '"@ + topic + "'"@,
                    )
                },
            }
        },
    }
}

/// What a decoded chain stands for.
pub open spec fn chain_view(chain: Result<Vec<Link>, String>) -> Result<Seq<LinkView>, Seq<char>> {
    match chain {
        Ok(links) => Ok(links@.map_values(|l: Link| l@)),
        Err(why) => Err(why@),
    }
}

/// What the verdict of the capability system stands for.
pub open spec fn verdict_view(verdict: Result<(), String>) -> Result<(), Seq<char>> {
    match verdict {
        Ok(_) => Ok(()),
        Err(why) => Err(why@),
    }
}

/// Whether `r` fails with the text `fault`, where there is one, and succeeds where there is none.
pub open spec fn fails_with_text<T>(r: Result<T, String>, fault: Option<Seq<char>>) -> bool {
    match r {
        Ok(_) => fault is None,
        Err(why) => fault == Some(why@),
    }
}

/// Decides on a presented link: `chain` is what the token decodes to, and `verdict` what the
/// capability system makes of signatures, attenuation, expiry, revocation and the ability. On top of
/// that the scope of the last link must cover `topic`.
pub fn verify_link(chain: Result<Vec<Link>, String>, verdict: Result<(), String>, topic: &str) -> (r:
    Result<(), String>)
    ensures
        fails_with_text(r, link_fault(chain_view(chain), verdict_view(verdict), topic@)),
{
    let links: Vec<Link> = match chain {
        Ok(links) => links,
        Err(why) => {
            return Err(why);
        },
    };
    if let Err(why) = verdict {
        return Err(why);
    }
    if links.len() == 0 {
        return Err("empty chain".to_owned());
    }
    let leaf: &Link = &links[links.len() - 1];
    match &leaf.path_prefix {
        None => Err("link has no topic scope".to_owned()),
        Some(scope) => {
            if topic_allows(scope.as_str(), topic) {
                Ok(())
            } else {
                let mut t: String = "link scope '".to_owned();
                t.append(scope.as_str());
                t.append("' does not cover topic '");
                t.append(topic);
                t.append("'");
                Err(t)
            }
        },
    }
}

/// Reads the node id of the requester of an operation.
pub fn requester_id(hex: &str) -> (r: Result<NodeId, String>)
    ensures
        fails_with_text(
            r,
            match node_id::id_fault(hex@) {
                Some(why) => Some("bad publisher node id: "@ + why),
                None => None,
            },
        ),
        r is Ok ==> r->Ok_0@ == node_id::id_bytes(hex@),
{
    match node_id::parse_node_id(hex) {
        Ok(id) => Ok(id),
        Err(e) => {
            let mut t: String = "bad publisher node id: ".to_owned();
            t.append(e.text.as_str());
            Err(t)
        },
    }
}

/// Reads the node id of the topic's owner.
pub fn owner_id(hex: &str) -> (r: Result<NodeId, String>)
    ensures
        fails_with_text(
            r,
            match node_id::id_fault(hex@) {
                Some(why) => Some("bad owner node id: "@ + why),
                None => None,
            },
        ),
        r is Ok ==> r->Ok_0@ == node_id::id_bytes(hex@),
{
    match node_id::parse_node_id(hex) {
        Ok(id) => Ok(id),
        Err(e) => {
            let mut t: String = "bad owner node id: ".to_owned();
            t.append(e.text.as_str());
            Err(t)
        },
    }
}

/// Accepts capability chains rooted at `root`, a node id in hex, besides those in `roots`. A root
/// that is accepted already is not listed twice.
pub fn accept_root(roots: &mut Vec<NodeId>, root: &str) -> (r: Result<(), PubSubError>)
    ensures
        crate::error::fails_with(r, node_id::id_fault(root@)),
        ({
            let before = ids(old(roots)@);
            let id = node_id::id_bytes(root@);
            ids(final(roots)@) == if node_id::id_fault(root@) is Some || before.contains(id) {
                before
            } else {
                before.push(id)
            }
        }),
{
    let id: NodeId = match node_id::parse_node_id(root) {
        Ok(id) => id,
        Err(e) => {
            return Err(e);
        },
    };
    let ghost before = ids(roots@);
    let mut i: usize = 0;
    while i < roots.len()
        invariant
            i <= roots@.len(),
            before == ids(roots@),
            before == ids(old(roots)@),
            id@ == node_id::id_bytes(root@),
            node_id::id_fault(root@) is None,
            forall|j: int| 0 <= j < i ==> #[trigger] before[j] != id@,
        decreases roots@.len() - i,
    {
        if node_id::same_id(&roots[i], &id) {
            assert(before[i as int] == id@);
            return Ok(());
        }
        assert(before[i as int] != id@);
        i = i + 1;
    }
    assert(!before.contains(id@));
    roots.push(id);
    assert(ids(roots@) =~= before.push(id@));
    Ok(())
}

/// The bytes of node ids.
pub open spec fn ids(s: Seq<NodeId>) -> Seq<Seq<u8>> {
    s.map_values(|x: NodeId| x@)
}

/// A revoked link: the bytes of its issuer's node id, and its nonce.
pub open spec fn revocation(r: (NodeId, u64)) -> (Seq<u8>, u64) {
    (r.0@, r.1)
}

/// The revoked links of a list whose issuers are node ids, in order.
pub open spec fn revocations(listed: Seq<(String, u64)>) -> Seq<(Seq<u8>, u64)>
    decreases listed.len(),
{
    if listed.len() == 0 {
        Seq::empty()
    } else {
        let before = revocations(listed.drop_last());
        let (issuer, nonce) = listed.last();
        if node_id::id_fault(issuer@) is None {
            before.push((node_id::id_bytes(issuer@), nonce))
        } else {
            before
        }
    }
}

/// Reads the set of revoked links that the chain reports. Where it could not be consulted every
/// request is refused, so that an outage never honors a link that may have been revoked.
pub fn revoked_links(listed: Result<Vec<(String, u64)>, String>) -> (r: Result<
    Vec<(NodeId, u64)>,
    String,
>)
    ensures
        match (listed, r) {
            (Ok(l), Ok(v)) => v@.map_values(|x: (NodeId, u64)| revocation(x)) == revocations(l@),
            (Err(why), Err(e)) => e@ == "cannot verify revocation (fail-closed): "@ + why@,
            _ => false,
        },
{
    let listed: Vec<(String, u64)> = match listed {
        Ok(l) => l,
        Err(why) => {
            let mut t: String = "cannot verify revocation (fail-closed): ".to_owned();
            t.append(why.as_str());
            return Err(t);
        },
    };
    let ghost read = |x: (NodeId, u64)| revocation(x);
    let mut v: Vec<(NodeId, u64)> = Vec::new();
    let mut i: usize = 0;
    assert(v@.map_values(read) =~= Seq::empty());
    while i < listed.len()
        invariant
            i <= listed@.len(),
            read == (|x: (NodeId, u64)| revocation(x)),
            v@.map_values(read) == revocations(listed@.take(i as int)),
        decreases listed@.len() - i,
    {
        assert(listed@.take(i + 1).drop_last() =~= listed@.take(i as int));
        let ghost before = v@;
        if let Ok(id) = node_id::parse_node_id(listed[i].0.as_str()) {
            v.push((id, listed[i].1));
            assert(v@.map_values(read) =~= before.map_values(read).push((id@, listed@[i as int].1)));
        }
        i = i + 1;
    }
    assert(listed@.take(i as int) =~= listed@);
    Ok(v)
}

/// Whether the link of `issuer` with `nonce` has been revoked.
pub fn is_revoked(revoked: &Vec<(NodeId, u64)>, issuer: &NodeId, nonce: u64) -> (b: bool)
    ensures
        b == exists|i: int|
            0 <= i < revoked@.len() && #[trigger] revocation(revoked@[i]) == (issuer@, nonce),
        b == revoked@.map_values(|x: (NodeId, u64)| revocation(x)).contains((issuer@, nonce)),
{
    let ghost known = revoked@.map_values(|x: (NodeId, u64)| revocation(x));
    let mut i: usize = 0;
    while i < revoked.len()
        invariant
            i <= revoked@.len(),
            known == revoked@.map_values(|x: (NodeId, u64)| revocation(x)),
            forall|j: int|
                0 <= j < i ==> #[trigger] revocation(revoked@[j]) != (issuer@, nonce),
        decreases revoked@.len() - i,
    {
        if node_id::same_id(&revoked[i].0, issuer) && revoked[i].1 == nonce {
            assert(revocation(revoked@[i as int]) == (issuer@, nonce));
            assert(known[i as int] == (issuer@, nonce));
            return true;
        }
        i = i + 1;
    }
    proof {
        if known.contains((issuer@, nonce)) {
            let j = choose|j: int| 0 <= j < known.len() && known[j] == (issuer@, nonce);
            assert(revocation(revoked@[j]) == (issuer@, nonce));
        }
    }
    false
}

/// What the capability system is asked: whether a token grants an ability to a requester.
#[derive(Debug, Clone, PartialEq, Eq)]
pub struct Question {
    /// The topic's owner.
    pub owner: NodeId,
    /// The requester.
    pub requester: NodeId,
    /// The links that have been revoked.
    pub revoked: Vec<(NodeId, u64)>,
    /// The ability.
    pub ability: String,
    /// The token.
    pub token: String,
}

/// What the capability system says of a token: what the token decodes to, and the verdict on it.
pub type Judgement = (Result<Vec<Link>, String>, Result<(), String>);

/// Whether `q` asks about the token and the ability, for the requester, the owner and the revoked
/// links that are given in hex.
pub open spec fn asks(
    q: Question,
    requester_hex: Seq<char>,
    owner_hex: Seq<char>,
    listed: Seq<(String, u64)>,
    ability: Seq<char>,
    token: Seq<char>,
) -> bool {
    &&& q.owner@ == node_id::id_bytes(owner_hex)
    &&& q.requester@ == node_id::id_bytes(requester_hex)
    &&& q.revoked@.map_values(|x: (NodeId, u64)| revocation(x)) == revocations(listed)
    &&& q.ability@ == ability
    &&& q.token@ == token
}

/// Whether `r` is the decision on a request on `topic` whose token is judged by `judge`, under
/// `ability`: a fault of what is asked about comes first, and else what `judge` answers decides.
pub open spec fn decided<J: FnOnce(Question) -> Judgement>(
    r: Result<(), String>,
    requester_hex: Seq<char>,
    owner_hex: Seq<char>,
    listed: Result<Vec<(String, u64)>, String>,
    topic: Seq<char>,
    ability: Seq<char>,
    token: Seq<char>,
    judge: J,
) -> bool {
    match (node_id::id_fault(requester_hex), node_id::id_fault(owner_hex), listed) {
        (Some(why), _, _) => fails_with_text(r, Some("bad publisher node id: "@ + why)),
        (None, Some(why), _) => fails_with_text(r, Some("bad owner node id: "@ + why)),
        (None, None, Err(why)) => fails_with_text(
            r,
            Some("cannot verify revocation (fail-closed): "@ + why@),
        ),
        (None, None, Ok(l)) => exists|q: Question, said: Judgement|
            {
                &&& #[trigger] judge.ensures((q,), said)
                &&& asks(q, requester_hex, owner_hex, l@, ability, token)
                &&& fails_with_text(r, link_fault(chain_view(said.0), verdict_view(said.1), topic))
            },
    }
}

/// Authorizes a request on `topic` that presents `token` for `ability`: reads the node ids of the
/// requester and of the owner, and the revoked links that the chain lists, lets `judge` decode and
/// judge the token, and decides on what it says.
pub fn authorize<J: FnOnce(Question) -> Judgement>(
    requester_hex: &str,
    owner_hex: &str,
    listed: Result<Vec<(String, u64)>, String>,
    topic: &str,
    ability: &str,
    token: &str,
    judge: J,
) -> (r: Result<(), String>)
    requires
        forall|q: Question| judge.requires((q,)),
    ensures
        decided(r, requester_hex@, owner_hex@, listed, topic@, ability@, token@, judge),
{
    let requester: NodeId = match requester_id(requester_hex) {
        Ok(id) => id,
        Err(why) => {
            return Err(why);
        },
    };
    let owner: NodeId = match owner_id(owner_hex) {
        Ok(id) => id,
        Err(why) => {
            return Err(why);
        },
    };
    let revoked: Vec<(NodeId, u64)> = match revoked_links(listed) {
        Ok(v) => v,
        Err(why) => {
            return Err(why);
        },
    };
    let q: Question = Question {
        owner,
        requester,
        revoked,
        ability: ability.to_owned(),
        token: token.to_owned(),
    };
    let ghost asked = q;
    let (chain, verdict): Judgement = judge(q);
    assert(judge.ensures((asked,), (chain, verdict)));
    verify_link(chain, verdict, topic)
}

/// Authorizes a publish on a gated topic: its token is judged under `pubsub:publish`.
pub fn authorize_publish<J: FnOnce(Question) -> Judgement>(
    requester_hex: &str,
    owner_hex: &str,
    listed: Result<Vec<(String, u64)>, String>,
    topic: &str,
    token: &str,
    judge: J,
) -> (r: Result<(), String>)
    requires
        forall|q: Question| judge.requires((q,)),
    ensures
        decided(r, requester_hex@, owner_hex@, listed, topic@, ABILITY_PUBLISH@, token@, judge),
{
    authorize(requester_hex, owner_hex, listed, topic, ABILITY_PUBLISH, token, judge)
}

/// Authorizes a control request on a gated topic: its token is judged under `pubsub:subscribe`.
pub fn authorize_control<J: FnOnce(Question) -> Judgement>(
    requester_hex: &str,
    owner_hex: &str,
    listed: Result<Vec<(String, u64)>, String>,
    topic: &str,
    token: &str,
    judge: J,
) -> (r: Result<(), String>)
    requires
        forall|q: Question| judge.requires((q,)),
    ensures
        decided(r, requester_hex@, owner_hex@, listed, topic@, ABILITY_SUBSCRIBE@, token@, judge),
{
    authorize(requester_hex, owner_hex, listed, topic, ABILITY_SUBSCRIBE, token, judge)
}

/// A scope covers itself, and everything that starts with what it covers: narrowing a scope never
/// widens access.
pub proof fn scopes_narrow(a: Seq<char>, b: Seq<char>, topic: Seq<char>)
    ensures
        text::has_prefix(a, a),
        text::has_prefix(topic, Seq::empty()),
        text::has_prefix(b, a) && text::has_prefix(topic, b) ==> text::has_prefix(topic, a),
{
    assert(a.take(a.len() as int) =~= a);
    assert(topic.take(0) =~= Seq::empty());
    if text::has_prefix(b, a) && text::has_prefix(topic, b) {
        assert(topic.take(b.len() as int).take(a.len() as int) =~= topic.take(a.len() as int));
    }
}

/// A link that is refused by the capability system, or whose scope does not cover the topic, is
/// refused; one that is honored passed both.
pub proof fn honored_links_passed_every_check(
    chain: Result<Seq<LinkView>, Seq<char>>,
    verdict: Result<(), Seq<char>>,
    topic: Seq<char>,
)
    requires
        link_fault(chain, verdict, topic) is None,
    ensures
        chain is Ok,
        verdict is Ok,
        chain->Ok_0.len() > 0,
        chain->Ok_0.last().path_prefix is Some,
        text::has_prefix(topic, chain->Ok_0.last().path_prefix->0),
{
}

/// A link is honored exactly where its chain decodes, is not empty, was honored by the capability
/// system, and its last link has a scope that the topic starts with.
pub proof fn links_are_honored(
    chain: Result<Seq<LinkView>, Seq<char>>,
    verdict: Result<(), Seq<char>>,
    topic: Seq<char>,
)
    ensures
        link_fault(chain, verdict, topic) is None <==> {
            &&& verdict is Ok
            &&& chain matches Ok(links) && links.len() > 0 && (links.last().path_prefix matches Some(
                scope,
            ) && scope.len() <= topic.len() && topic.subrange(0, scope.len() as int) == scope)
        },
        chain matches Err(why) ==> link_fault(chain, verdict, topic) == Some(why),
        chain is Ok && verdict is Err ==> link_fault(chain, verdict, topic) == Some(verdict->Err_0),
{
    if let Ok(links) = chain {
        if links.len() > 0 {
            if let Some(scope) = links.last().path_prefix {
                if scope.len() <= topic.len() {
                    assert(topic.subrange(0, scope.len() as int) =~= topic.take(
                        scope.len() as int,
                    ));
                }
            }
        }
    }
}

/// Every revoked link that is listed under a node id is known as revoked, with that id and its number,
/// and no other.
pub proof fn listed_links_are_revoked(listed: Seq<(String, u64)>, id: Seq<u8>, nonce: u64)
    ensures
        revocations(listed).contains((id, nonce)) <==> exists|i: int|
            0 <= i < listed.len() && node_id::id_fault((#[trigger] listed[i]).0@) is None
                && node_id::id_bytes(listed[i].0@) == id && listed[i].1 == nonce,
    decreases listed.len(),
{
    let all = revocations(listed);
    if listed.len() > 0 {
        let head = listed.drop_last();
        let before = revocations(head);
        let n = listed.len() - 1;
        listed_links_are_revoked(head, id, nonce);
        if before.contains((id, nonce)) {
            let j = choose|j: int| 0 <= j < before.len() && before[j] == (id, nonce);
            assert(all[j] == (id, nonce));
        }
        if all.contains((id, nonce)) && !before.contains((id, nonce)) {
            let j = choose|j: int| 0 <= j < all.len() && all[j] == (id, nonce);
            if j < before.len() {
                assert(before[j] == (id, nonce));
            }
            assert(listed[n] == listed.last());
        }
        if exists|i: int|
            0 <= i < head.len() && node_id::id_fault((#[trigger] head[i]).0@) is None
                && node_id::id_bytes(head[i].0@) == id && head[i].1 == nonce {
            let i = choose|i: int|
                0 <= i < head.len() && node_id::id_fault((#[trigger] head[i]).0@) is None
                    && node_id::id_bytes(head[i].0@) == id && head[i].1 == nonce;
            assert(listed[i] == head[i]);
        }
        if exists|i: int|
            0 <= i < listed.len() && node_id::id_fault((#[trigger] listed[i]).0@) is None
                && node_id::id_bytes(listed[i].0@) == id && listed[i].1 == nonce {
            let i = choose|i: int|
                0 <= i < listed.len() && node_id::id_fault((#[trigger] listed[i]).0@) is None
                    && node_id::id_bytes(listed[i].0@) == id && listed[i].1 == nonce;
            if i < n {
                assert(head[i] == listed[i]);
            } else {
                assert(all[before.len() as int] == (id, nonce));
            }
        }
    }
}

/// A request is honored only where the requester, the owner and the revoked links could be told, and the
/// capability system, asked about this requester, this owner, these revoked links, this ability and this
/// token, honored it for a chain whose last link covers the topic. Where the revoked links could not be
/// told it is refused.
pub proof fn honored_requests_were_judged<J: FnOnce(Question) -> Judgement>(
    r: Result<(), String>,
    requester_hex: Seq<char>,
    owner_hex: Seq<char>,
    listed: Result<Vec<(String, u64)>, String>,
    topic: Seq<char>,
    ability: Seq<char>,
    token: Seq<char>,
    judge: J,
)
    requires
        decided(r, requester_hex, owner_hex, listed, topic, ability, token, judge),
    ensures
        listed is Err ==> r is Err,
        node_id::id_fault(requester_hex) is Some ==> r is Err,
        node_id::id_fault(owner_hex) is Some ==> r is Err,
        r is Ok ==> exists|q: Question, said: Judgement|
            {
                &&& #[trigger] judge.ensures((q,), said)
                &&& q.requester@ == node_id::id_bytes(requester_hex)
                &&& q.owner@ == node_id::id_bytes(owner_hex)
                &&& q.ability@ == ability
                &&& q.token@ == token
                &&& q.revoked@.map_values(|x: (NodeId, u64)| (x.0@, x.1)) == revocations(
                    listed->Ok_0@,
                )
                &&& said.1 is Ok
                &&& said.0 matches Ok(links) && links@.len() > 0 && (
                links@.last().path_prefix matches Some(scope) && text::has_prefix(topic, scope@))
            },
{
    if r is Ok {
        let l = listed->Ok_0;
        let (q, said) = choose|q: Question, said: Judgement|
            {
                &&& #[trigger] judge.ensures((q,), said)
                &&& asks(q, requester_hex, owner_hex, l@, ability, token)
                &&& fails_with_text(r, link_fault(chain_view(said.0), verdict_view(said.1), topic))
            };
        assert(q.revoked@.map_values(|x: (NodeId, u64)| (x.0@, x.1)) =~= q.revoked@.map_values(
            |x: (NodeId, u64)| revocation(x),
        ));
        let links = said.0->Ok_0;
        assert(links@.map_values(|x: Link| x@).last() == links@.last()@);
        assert(judge.ensures((q,), said));
    }
}

/// Where all that is asked about could be told, a request is refused only where the capability system
/// did not honor it or the chain does not cover the topic.
pub proof fn refused_requests_were_judged<J: FnOnce(Question) -> Judgement>(
    r: Result<(), String>,
    requester_hex: Seq<char>,
    owner_hex: Seq<char>,
    listed: Result<Vec<(String, u64)>, String>,
    topic: Seq<char>,
    ability: Seq<char>,
    token: Seq<char>,
    judge: J,
)
    requires
        decided(r, requester_hex, owner_hex, listed, topic, ability, token, judge),
        listed is Ok,
        node_id::id_fault(requester_hex) is None,
        node_id::id_fault(owner_hex) is None,
        r is Err,
    ensures
        exists|q: Question, said: Judgement|
            {
                &&& #[trigger] judge.ensures((q,), said)
                &&& q.ability@ == ability && q.token@ == token
                &&& said.1 is Err || said.0 is Err || said.0->Ok_0@.len() == 0 || !(
                said.0->Ok_0@.last().path_prefix matches Some(scope) && text::has_prefix(
                    topic,
                    scope@,
                ))
            },
{
    let l = listed->Ok_0;
    let (q, said) = choose|q: Question, said: Judgement|
        {
            &&& #[trigger] judge.ensures((q,), said)
            &&& asks(q, requester_hex, owner_hex, l@, ability, token)
            &&& fails_with_text(r, link_fault(chain_view(said.0), verdict_view(said.1), topic))
        };
    if said.0 is Ok && said.0->Ok_0@.len() > 0 {
        let links = said.0->Ok_0;
        assert(links@.map_values(|x: Link| x@).last() == links@.last()@);
    }
    assert(judge.ensures((q,), said));
}

} // verus!
