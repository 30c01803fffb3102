//! What the proxy reads out of the replies of caches and sentinels.

use vstd::prelude::*;
use crate::addr::CacheAddr;
use crate::info::{info_entries, info_get};
use crate::text::{split_on, split_str, contains_char};

verus! {

/// Why a cache could not be used as the proxy asked.
#[derive(PartialEq, Eq, Structural, Clone, Copy, Debug)]
pub enum RedisToolsError {
    /// The master's `INFO` reply names no connected replica.
    MasterNoSlave,
}

impl RedisToolsError {
    /// The text shown for this error.
    pub fn message(&self) -> (text: String)
        ensures
            text@ == "Master has no slave"@,
    {
        match self {
            RedisToolsError::MasterNoSlave => "Master has no slave".to_owned(),
        }
    }
}

/// The role a cache reports, when its `INFO` reply names one: whether that
/// role is `master`.
pub open spec fn reported_master(entries: Map<Seq<char>, Seq<char>>) -> Option<bool> {
    if entries.contains_key("role"@) {
        Some(entries["role"@] == "master"@)
    } else {
        None
    }
}

/// Whether the cache whose `INFO` reply is `info` is a master: `None` when the
/// reply names no role at all.
pub fn is_master(info: &redis::InfoDict) -> (answer: Option<bool>)
    ensures
        answer == reported_master(info_entries(*info)),
{
    match info_get(info, "role") {
        Some(role) => {
            let master = "master".to_owned();
            Some(role == master)
        },
        None => None,
    }
}

/// The fields of a `key=value,key=value` list, a later key replacing an
/// earlier one. Each piece's key is the text before its first `=` and its value
/// the text between its first and second `=`.
pub open spec fn fields_of(pieces: Seq<Seq<char>>) -> Map<Seq<char>, Seq<char>>
    decreases pieces.len(),
{
    if pieces.len() == 0 {
        Map::empty()
    } else {
        let f = split_on(pieces.last(), '=');
        fields_of(pieces.drop_last()).insert(f[0], f[1])
    }
}

/// Every piece holds at least one `=`.
pub open spec fn pieces_have_values(pieces: Seq<Seq<char>>) -> bool {
    forall|i: int| 0 <= i < pieces.len() ==> #[trigger] split_on(pieces[i], '=').len() >= 2
}

/// The `slave0` line of an `INFO` reply, when there is one, is a list of
/// `key=value` pieces.
pub open spec fn slave_info_well_formed(entries: Map<Seq<char>, Seq<char>>) -> bool {
    entries.contains_key("slave0"@) ==> pieces_have_values(split_on(entries["slave0"@], ','))
}

/// The fields of the `slave0` line of an `INFO` reply; none without that line.
pub open spec fn slave_fields(entries: Map<Seq<char>, Seq<char>>) -> Map<Seq<char>, Seq<char>> {
    if entries.contains_key("slave0"@) {
        fields_of(split_on(entries["slave0"@], ','))
    } else {
        Map::empty()
    }
}

/// Whether `ip` is an IPv6 address still to be put in brackets: it holds a
/// colon and does not already start with `[`.
pub open spec fn needs_brackets(ip: Seq<char>) -> bool {
    ip.contains(':') && !(ip.len() > 0 && ip[0] == '[')
}

/// The text of the socket address with host `ip` and port `port`, as a
/// socket address is written: `ip:port`, with an IPv6 ip put in brackets
/// unless it already is.
pub open spec fn host_port(ip: Seq<char>, port: Seq<char>) -> Seq<char> {
    if needs_brackets(ip) {
        "["@ + ip + "]:"@ + port
    } else {
        ip + ":"@ + port
    }
}

/// Writes the socket address with host `ip` and port `port`.
pub fn join_host_port(ip: &str, port: &str) -> (text: String)
    ensures
        text@ == host_port(ip@, port@),
{
    let bracketed = ip.unicode_len() > 0 && ip.get_char(0) == '[';
    if contains_char(ip, ':') && !bracketed {
        "[".to_owned().concat(ip).concat("]:").concat(port)
    } else {
        ip.to_owned().concat(":").concat(port)
    }
}

/// The socket address of the first replica of a master, or the error when its
/// `INFO` reply gives no ip or no port for it.
pub open spec fn slave_address(entries: Map<Seq<char>, Seq<char>>) -> Result<
    Seq<char>,
    RedisToolsError,
> {
    let f = slave_fields(entries);
    if f.contains_key("ip"@) && f.contains_key("port"@) {
        Ok(host_port(f["ip"@], f["port"@]))
    } else {
        Err(RedisToolsError::MasterNoSlave)
    }
}

/// A result holding a `String`, taken by the string's view.
pub open spec fn text_result(r: Result<String, RedisToolsError>) -> Result<
    Seq<char>,
    RedisToolsError,
> {
    match r {
        Ok(s) => Ok(s@),
        Err(e) => Err(e),
    }
}

/// Reads the `ip` and `port` fields of a `key=value,...` list, or `None` when
/// some piece of it holds no `=`.
fn scan_fields(value: &str) -> (found: Option<(Option<String>, Option<String>)>)
    ensures
        found is None <==> !pieces_have_values(split_on(value@, ',')),
        found matches Some((ip, port)) ==> {
            let f = fields_of(split_on(value@, ','));
            &&& (ip is Some <==> f.contains_key("ip"@))
            &&& (ip matches Some(s) ==> s@ == f["ip"@])
            &&& (port is Some <==> f.contains_key("port"@))
            &&& (port matches Some(s) ==> s@ == f["port"@])
        },
{
    let pieces = split_str(value, ',');
    let ghost views = split_on(value@, ',');
    let ip_key = "ip".to_owned();
    let port_key = "port".to_owned();
    let mut ip: Option<String> = None;
    let mut port: Option<String> = None;
    let mut k: usize = 0;
    proof {
        reveal_strlit("ip");
        reveal_strlit("port");
        assert("ip"@.len() != "port"@.len());
    }
    while k < pieces.len()
        invariant
            pieces@.map_values(|p: String| p@) == views,
            views == split_on(value@, ','),
            ip_key@ == "ip"@,
            port_key@ == "port"@,
            "ip"@ != "port"@,
            k <= pieces.len(),
            pieces_have_values(views.take(k as int)),
            ip is Some <==> fields_of(views.take(k as int)).contains_key("ip"@),
            ip matches Some(s) ==> s@ == fields_of(views.take(k as int))["ip"@],
            port is Some <==> fields_of(views.take(k as int)).contains_key("port"@),
            port matches Some(s) ==> s@ == fields_of(views.take(k as int))["port"@],
        decreases pieces.len() - k,
    {
        let ghost piece = views[k as int];
        assert(pieces@[k as int]@ == piece);
        let f = split_str(pieces[k].as_str(), '=');
        let ghost fv = split_on(piece, '=');
        assert(f@.map_values(|p: String| p@).len() == f@.len());
        if f.len() < 2 {
            proof {
                assert(!pieces_have_values(views)) by {
                    assert(split_on(views[k as int], '=').len() < 2);
                }
            }
            return None;
        }
        assert(f@[0]@ == fv[0]);
        assert(f@[1]@ == fv[1]);
        let ghost before = fields_of(views.take(k as int));
        assert(views.take(k + 1).drop_last() =~= views.take(k as int));
        assert(views.take(k + 1).last() == piece);
        assert(fields_of(views.take(k + 1)) == before.insert(fv[0], fv[1]));
        if f[0] == ip_key {
            ip = Some(f[1].clone());
        } else if f[0] == port_key {
            port = Some(f[1].clone());
        }
        assert(pieces_have_values(views.take(k + 1))) by {
            assert forall|i: int| 0 <= i < views.take(k + 1).len() implies #[trigger] split_on(
                views.take(k + 1)[i],
                '=',
            ).len() >= 2 by {
                if i < k {
                    assert(views.take(k + 1)[i] == views.take(k as int)[i]);
                }
            }
        }
        k = k + 1;
    }
    assert(views.take(k as int) =~= views);
    Some((ip, port))
}

/// The `ip:port` text of the first replica of the master whose `INFO` reply
/// is `info`, or `MasterNoSlave` when the reply gives no ip or no port for it.
pub fn get_slave(info: &redis::InfoDict) -> (slave: Result<String, RedisToolsError>)
    requires
        slave_info_well_formed(info_entries(*info)),
    ensures
        text_result(slave) == slave_address(info_entries(*info)),
{
    match try_get_slave(info) {
        Some(slave) => slave,
        None => Err(RedisToolsError::MasterNoSlave),
    }
}

/// As `get_slave`, for any reply: `None` when a piece of its `slave0` line
/// holds no `=`, where `get_slave` cannot be called.
pub fn try_get_slave(info: &redis::InfoDict) -> (slave: Option<Result<String, RedisToolsError>>)
    ensures
        slave is None <==> !slave_info_well_formed(info_entries(*info)),
        slave matches Some(r) ==> text_result(r) == slave_address(info_entries(*info)),
{
    let fields = match info_get(info, "slave0") {
        Some(value) => scan_fields(value.as_str()),
        None => {
            proof {
                assert(fields_of(Seq::<Seq<char>>::empty()) == Map::<Seq<char>, Seq<char>>::empty());
            }
            Some((None, None))
        },
    };
    match fields {
        None => None,
        Some((Some(ip), Some(port))) => Some(Ok(join_host_port(ip.as_str(), port.as_str()))),
        Some(_) => Some(Err(RedisToolsError::MasterNoSlave)),
    }
}

/// The socket address of the master that a sentinel names in its reply to
/// `SENTINEL get-master-addr-by-name`, whose first item is the ip and second
/// the port; `None` when the reply has fewer than two items, as for a master
/// name the sentinel does not know.
pub open spec fn sentinel_master(reply: Seq<Seq<char>>) -> Option<Seq<char>> {
    if reply.len() >= 2 {
        Some(host_port(reply[0], reply[1]))
    } else {
        None
    }
}

/// The socket address text of the master named in the sentinel's `reply`,
/// or `None` when the reply names none.
pub fn get_current_master(reply: &Vec<String>) -> (master: Option<String>)
    ensures
        master is None <==> sentinel_master(reply@.map_values(|s: String| s@)) is None,
        master matches Some(m) ==> Some(m@) == sentinel_master(reply@.map_values(|s: String| s@)),
{
    if reply.len() < 2 {
        return None;
    }
    let ghost views = reply@.map_values(|s: String| s@);
    assert(views[0] == reply@[0]@ && views[1] == reply@[1]@);
    Some(join_host_port(reply[0].as_str(), reply[1].as_str()))
}

/// `url::Url`: a parsed URL.
#[verifier::external_type_specification]
#[verifier::external_body]
pub struct ExUrl(url::Url);

/// What `redis::parse_redis_url` makes of `input`: the URL it parses to, when
/// the text parses as a URL whose scheme is one that the client can connect
/// by; `Err` otherwise.
pub uninterp spec fn parsed_redis_url(input: Seq<char>) -> Result<url::Url, ()>;

/// `redis::parse_redis_url`: parses `input` as the URL of a cache. Its result
/// depends on the text alone.
#[verifier::external_body]
fn parse_redis_url(input: &str) -> (url: Result<url::Url, ()>)
    ensures
        url == parsed_redis_url(input@),
{
    redis::parse_redis_url(input)
}

/// The text of the URL by which the cache at `addr` is reached.
pub open spec fn cache_url_text(addr: Seq<char>) -> Seq<char> {
    "redis://"@ + addr
}

/// The URL of the cache whose address reads `addr` (`host:port`), as the
/// client library parses `redis://` followed by that address.
pub fn connection_url(addr: &str) -> (url: Result<url::Url, ()>)
    ensures
        url == parsed_redis_url(cache_url_text(addr@)),
{
    let text = "redis://".to_owned().concat(addr);
    parse_redis_url(text.as_str())
}

/// What came of asking a cache whether it is the master.
#[derive(PartialEq, Eq, Structural, Clone, Copy, Debug)]
pub enum ProbeOutcome {
    /// It answered that it is the master.
    Master,
    /// It answered with another role.
    NotMaster,
    /// It could not be asked, or gave no usable answer.
    Failed,
}

/// Where a search for the master among known caches stands.
#[derive(PartialEq, Eq, Structural, Clone, Copy, Debug)]
pub enum Search {
    /// The cache at this index of the candidates is to be asked next.
    Probe(usize),
    /// This cache answered that it is the master.
    Found(CacheAddr),
    /// Every candidate was asked and none is the master.
    NotFound,
}

/// The search over `candidates` from index `i` on, where `outcomes[j]` is
/// what the candidate at index `j` answered, for the candidates asked so far:
/// the first candidate not yet asked is asked next, the first that answered
/// master is the result.
pub open spec fn search_from(
    candidates: Seq<CacheAddr>,
    outcomes: Seq<ProbeOutcome>,
    i: nat,
) -> Search
    decreases candidates.len() - i,
{
    if i >= candidates.len() {
        Search::NotFound
    } else if i >= outcomes.len() {
        Search::Probe(i as usize)
    } else if outcomes[i as int] == ProbeOutcome::Master {
        Search::Found(candidates[i as int])
    } else {
        search_from(candidates, outcomes, i + 1)
    }
}

/// The search over all of `candidates`, given what those asked so far answered.
pub open spec fn search_result(candidates: Seq<CacheAddr>, outcomes: Seq<ProbeOutcome>) -> Search {
    search_from(candidates, outcomes, 0)
}

/// The next step of the search for the master among `candidates`, given the
/// answers `outcomes` of those asked so far, in order: ask the next cache,
/// take the first that answered master, or report that none did.
pub fn find_master(candidates: &Vec<CacheAddr>, outcomes: &Vec<ProbeOutcome>) -> (step: Search)
    ensures
        step == search_result(candidates@, outcomes@),
{
    let mut i: usize = 0;
    while i < candidates.len()
        invariant
            i <= candidates.len(),
            search_from(candidates@, outcomes@, i as nat) == search_result(candidates@, outcomes@),
        decreases candidates.len() - i,
    {
        if i >= outcomes.len() {
            return Search::Probe(i);
        }
        if outcomes[i] == ProbeOutcome::Master {
            return Search::Found(candidates[i]);
        }
        i = i + 1;
    }
    Search::NotFound
}

/// The search asks the candidates one at a time and in order, and settles on
/// the first that answered master: it asks for a candidate's answer exactly
/// when all answers so far are known and none is master; it finds a cache
/// exactly when that cache is the first of the candidates asked to answer
/// master; it finds none exactly when every candidate answered otherwise.
pub proof fn lemma_search_order(candidates: Seq<CacheAddr>, outcomes: Seq<ProbeOutcome>)
    requires
        candidates.len() <= usize::MAX,
    ensures
        search_result(candidates, outcomes) matches Search::Probe(k) ==> {
            &&& k == outcomes.len()
            &&& k < candidates.len()
            &&& forall|j: int| 0 <= j < k ==> outcomes[j] != ProbeOutcome::Master
        },
        search_result(candidates, outcomes) matches Search::Found(a) ==> exists|i: int|
            {
                &&& 0 <= i < candidates.len()
                &&& i < outcomes.len()
                &&& outcomes[i] == ProbeOutcome::Master
                &&& candidates[i] == a
                &&& forall|j: int| 0 <= j < i ==> outcomes[j] != ProbeOutcome::Master
            },
        search_result(candidates, outcomes) is NotFound ==> {
            &&& outcomes.len() >= candidates.len()
            &&& forall|j: int| 0 <= j < candidates.len() ==> outcomes[j] != ProbeOutcome::Master
        },
{
    lemma_search_from_order(candidates, outcomes, 0);
}

proof fn lemma_search_from_order(candidates: Seq<CacheAddr>, outcomes: Seq<ProbeOutcome>, i: nat)
    requires
        candidates.len() <= usize::MAX,
    ensures
        search_from(candidates, outcomes, i) matches Search::Probe(k) ==> {
            &&& k == if i > outcomes.len() { i } else { outcomes.len() }
            &&& k < candidates.len()
            &&& forall|j: int| i <= j < k ==> outcomes[j] != ProbeOutcome::Master
        },
        search_from(candidates, outcomes, i) matches Search::Found(a) ==> exists|m: int|
            {
                &&& i <= m < candidates.len()
                &&& m < outcomes.len()
                &&& outcomes[m] == ProbeOutcome::Master
                &&& candidates[m] == a
                &&& forall|j: int| i <= j < m ==> outcomes[j] != ProbeOutcome::Master
            },
        search_from(candidates, outcomes, i) is NotFound ==> {
            &&& (i < candidates.len() ==> outcomes.len() >= candidates.len())
            &&& forall|j: int| i <= j < candidates.len() ==> outcomes[j] != ProbeOutcome::Master
        },
    decreases candidates.len() - i,
{
    if i >= candidates.len() {
    } else if i >= outcomes.len() {
    } else if outcomes[i as int] == ProbeOutcome::Master {
    } else {
        lemma_search_from_order(candidates, outcomes, i + 1);
        if let Search::Found(a) = search_from(candidates, outcomes, i) {
            let m = choose|m: int|
                {
                    &&& i + 1 <= m < candidates.len()
                    &&& m < outcomes.len()
                    &&& outcomes[m] == ProbeOutcome::Master
                    &&& candidates[m] == a
                    &&& forall|j: int| i + 1 <= j < m ==> outcomes[j] != ProbeOutcome::Master
                };
            assert(forall|j: int| i <= j < m ==> outcomes[j] != ProbeOutcome::Master);
        }
    }
}

/// Once the search has settled, on a cache or on none, later answers do not
/// change its result.
pub proof fn lemma_search_settled(
    candidates: Seq<CacheAddr>,
    outcomes: Seq<ProbeOutcome>,
    more: Seq<ProbeOutcome>,
)
    requires
        !(search_result(candidates, outcomes) is Probe),
    ensures
        search_result(candidates, outcomes + more) == search_result(candidates, outcomes),
{
    lemma_search_from_settled(candidates, outcomes, more, 0);
}

proof fn lemma_search_from_settled(
    candidates: Seq<CacheAddr>,
    outcomes: Seq<ProbeOutcome>,
    more: Seq<ProbeOutcome>,
    i: nat,
)
    requires
        !(search_from(candidates, outcomes, i) is Probe),
    ensures
        search_from(candidates, outcomes + more, i) == search_from(candidates, outcomes, i),
    decreases candidates.len() - i,
{
    if i < candidates.len() && i < outcomes.len() {
        assert((outcomes + more)[i as int] == outcomes[i as int]);
        if outcomes[i as int] != ProbeOutcome::Master {
            lemma_search_from_settled(candidates, outcomes, more, i + 1);
        }
    }
}

} // verus!
