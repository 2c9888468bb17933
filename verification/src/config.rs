use vstd::prelude::*;
use vstd::string::StringExecFns;
use crate::error::{ProxyError, ProxyErrorView};
use crate::glob::{glob_matches, wild_match};
use crate::proxy::{IpAddress, ProxyTransport, SocketAddress};

verus! {

/// The handshake deadline, in milliseconds, of a configuration that names none.
pub open spec fn default_timeout_ms() -> u64 {
    10000
}

/// The address that is bound when the configuration names none: port 8443 on
/// every IPv4 interface.
pub open spec fn default_listen_addr() -> SocketAddress {
    SocketAddress { ip: IpAddress::V4(0), port: 8443 }
}

/// Returns the address to listen on when the configuration gives none.
pub fn default_addr() -> (addr: SocketAddress)
    ensures
        addr == default_listen_addr(),
{
    SocketAddress { ip: IpAddress::V4(0), port: 8443 }
}

/// Returns the handshake deadline used when the configuration gives none:
/// ten seconds, in milliseconds.
pub fn default_timeout() -> (ms: u64)
    ensures
        ms == default_timeout_ms(),
{
    10 * 1000
}

/// One forwarding rule: host names that fit any pattern of `src` are sent
/// through the first transport of `dst`.
#[derive(Debug, PartialEq, Eq)]
pub struct Forward {
    pub src: Vec<String>,
    pub dst: Vec<ProxyTransport>,
}

/// What the proxy is run with. It is read, never changed, by every connection.
#[derive(Debug, PartialEq, Eq)]
pub struct Config {
    pub listen_addr: SocketAddress,
    pub timeout_ms: u64,
    pub forwards: Vec<Forward>,
}

/// Whether any of the first `n` patterns fits `host`.
pub open spec fn any_pattern_matches(patterns: Seq<String>, n: int, host: Seq<char>) -> bool {
    exists|i: int| 0 <= i < n && i < patterns.len() && glob_matches(#[trigger] patterns[i]@, host)
}

impl Forward {
    /// Whether this rule applies to `host`: one of its patterns fits it.
    pub open spec fn matches_host(&self, host: Seq<char>) -> bool {
        any_pattern_matches(self.src@, self.src@.len() as int, host)
    }

    /// A rule is usable when it names at least one transport.
    pub open spec fn well_formed(&self) -> bool {
        self.dst@.len() > 0
    }

    /// Tells whether this rule applies to `hostname`.
    pub fn matches(&self, hostname: &str) -> (hit: bool)
        ensures
            hit == self.matches_host(hostname@),
    {
        let mut i: usize = 0;
        while i < self.src.len()
            invariant
                i <= self.src@.len(),
                !any_pattern_matches(self.src@, i as int, hostname@),
            decreases self.src@.len() - i,
        {
            if wild_match(self.src[i].as_str(), hostname) {
                return true;
            }
            i += 1;
        }
        false
    }
}

/// The position of the rule that `host` is routed by: the first, in the order
/// of the configuration, that applies to it. `None` where none does.
pub open spec fn first_match(rules: Seq<Forward>, host: Seq<char>) -> Option<int>
    decreases rules.len(),
{
    if rules.len() == 0 {
        None
    } else if rules[0].matches_host(host) {
        Some(0)
    } else {
        match first_match(rules.drop_first(), host) {
            Some(i) => Some(i + 1),
            None => None,
        }
    }
}

/// `first_match` names the least position whose rule applies, and `None`
/// exactly where no rule applies.
pub proof fn lemma_first_match_least(rules: Seq<Forward>, host: Seq<char>)
    ensures
        match first_match(rules, host) {
            Some(i) => 0 <= i < rules.len() && rules[i].matches_host(host) && forall|j: int|
                0 <= j < i ==> !(#[trigger] rules[j]).matches_host(host),
            None => forall|j: int|
                0 <= j < rules.len() ==> !(#[trigger] rules[j]).matches_host(host),
        },
    decreases rules.len(),
{
    if rules.len() > 0 && !rules[0].matches_host(host) {
        let rest = rules.drop_first();
        lemma_first_match_least(rest, host);
        assert(forall|j: int| 0 <= j < rest.len() ==> rest[j] == rules[j + 1]);
        match first_match(rest, host) {
            Some(i) => {
                assert forall|j: int| 0 <= j < i + 1 implies !(#[trigger] rules[j]).matches_host(
                    host,
                ) by {
                    if j > 0 {
                        assert(rest[j - 1] == rules[j]);
                    }
                }
            },
            None => {
                assert forall|j: int| 0 <= j < rules.len() implies !(#[trigger] rules[j])
                    .matches_host(host) by {
                    if j > 0 {
                        assert(rest[j - 1] == rules[j]);
                    }
                }
            },
        }
    }
}

/// Of two rules that both apply to a host name, the one configured first is
/// never passed over for the later one: the rule chosen stands at or before
/// the earlier of the two.
pub proof fn lemma_earlier_rule_wins(rules: Seq<Forward>, host: Seq<char>, i: int, j: int)
    requires
        0 <= i < j < rules.len(),
        rules[i].matches_host(host),
        rules[j].matches_host(host),
    ensures
        first_match(rules, host) is Some,
        first_match(rules, host).unwrap() <= i,
        first_match(rules, host) != Some(j),
{
    lemma_first_match_least(rules, host);
}

/// A rule applies as soon as one of its patterns fits, whichever it is and
/// wherever it stands among the rule's patterns.
pub proof fn lemma_any_pattern_suffices(rule: Forward, host: Seq<char>, k: int)
    requires
        0 <= k < rule.src@.len(),
        glob_matches(rule.src@[k]@, host),
    ensures
        rule.matches_host(host),
{
}

/// Which rule is chosen depends on the rules as wholes, not on where in its
/// rule a fitting pattern stands: two lists of rules that apply to the same
/// host names, position by position, choose the same position.
pub proof fn lemma_choice_is_per_rule(a: Seq<Forward>, b: Seq<Forward>, host: Seq<char>)
    requires
        a.len() == b.len(),
        forall|i: int| 0 <= i < a.len() ==> a[i].matches_host(host) == b[i].matches_host(host),
    ensures
        first_match(a, host) == first_match(b, host),
    decreases a.len(),
{
    if a.len() > 0 {
        assert(a[0].matches_host(host) == b[0].matches_host(host));
        let ra = a.drop_first();
        let rb = b.drop_first();
        assert forall|i: int| 0 <= i < ra.len() implies ra[i].matches_host(host) == rb[i]
            .matches_host(host) by {
            assert(ra[i] == a[i + 1]);
            assert(rb[i] == b[i + 1]);
        }
        lemma_choice_is_per_rule(ra, rb, host);
    }
}

impl Config {
    /// A configuration is usable when each of its rules is.
    pub open spec fn well_formed(&self) -> bool {
        forall|i: int|
            0 <= i < self.forwards@.len() ==> (#[trigger] self.forwards@[i]).well_formed()
    }

    /// Tells whether every rule names a transport.
    pub fn is_well_formed(&self) -> (ok: bool)
        ensures
            ok == self.well_formed(),
    {
        let mut i: usize = 0;
        while i < self.forwards.len()
            invariant
                i <= self.forwards@.len(),
                forall|j: int| 0 <= j < i ==> (#[trigger] self.forwards@[j]).well_formed(),
            decreases self.forwards@.len() - i,
        {
            if self.forwards[i].dst.len() == 0 {
                return false;
            }
            i += 1;
        }
        true
    }

    /// The rule that `host` is routed by, as a position in `forwards`.
    pub open spec fn route_of(&self, host: Seq<char>) -> Option<int> {
        first_match(self.forwards@, host)
    }

    /// Finds the position of the first rule that applies to `hostname`.
    pub fn resolve_index(&self, hostname: &str) -> (found: Option<usize>)
        ensures
            match found {
                Some(i) => i < self.forwards@.len() && self.route_of(hostname@) == Some(i as int),
                None => self.route_of(hostname@) is None,
            },
    {
        let mut i: usize = 0;
        while i < self.forwards.len()
            invariant
                i <= self.forwards@.len(),
                forall|j: int|
                    0 <= j < i ==> !(#[trigger] self.forwards@[j]).matches_host(hostname@),
            decreases self.forwards@.len() - i,
        {
            if self.forwards[i].matches(hostname) {
                proof {
                    lemma_first_match_least(self.forwards@, hostname@);
                }
                return Some(i);
            }
            i += 1;
        }
        proof {
            lemma_first_match_least(self.forwards@, hostname@);
        }
        None
    }

    /// Finds the rule that `hostname` is routed by: the first, in the order of
    /// the configuration, with a pattern that fits it.
    pub fn resolve(&self, hostname: &str) -> (found: Option<&Forward>)
        ensures
            match self.route_of(hostname@) {
                Some(i) => found == Some(&self.forwards@[i]),
                None => found is None,
            },
    {
        match self.resolve_index(hostname) {
            Some(i) => Some(&self.forwards[i]),
            None => None,
        }
    }

    /// Finds the rule for `hostname`, or fails with `NoMatch`, which carries
    /// the name that no rule applies to.
    pub fn route(&self, hostname: &str) -> (found: Result<&Forward, ProxyError>)
        ensures
            match self.route_of(hostname@) {
                Some(i) => found == Ok::<&Forward, ProxyError>(&self.forwards@[i]),
                None => found is Err && found.unwrap_err()@ == ProxyErrorView::NoMatch(hostname@),
            },
    {
        match self.resolve(hostname) {
            Some(rule) => Ok(rule),
            None => Err(ProxyError::NoMatch(String::from_str(hostname))),
        }
    }
}

} // verus!
