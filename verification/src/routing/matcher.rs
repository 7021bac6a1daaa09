//! Hostname matching for the handshake address.
//!
//! Lookup order, first hit wins:
//!
//! 1. exact host (`survival.example.net`)
//! 2. longest matching wildcard (`*.play.example.net` beats `*.example.net`)
//! 3. the catch-all rule (`*`)
//! 4. `routing.default`

use vstd::prelude::*;
use vstd::utf8::encode_utf8;

use crate::bytes::is_prefix;
use crate::config::model::{rule_values, Config, Rule, RuleValue};
use crate::text::{
    copy_opt, from_chars, lists_text, lower, opt_text, same_chars, sub_chars, to_chars, to_lower,
};

verus! {

/// What a rule's host asks for.
pub ghost enum Pattern {
    /// This host and no other.
    Exact(Seq<char>),
    /// Hosts that end in this suffix, which starts with a dot, and the bare
    /// domain.
    Wildcard(Seq<char>),
    /// Every host.
    CatchAll,
}

/// The pattern of a rule, in lower case.
pub open spec fn pattern_of(host: Seq<char>) -> Pattern {
    let host = lower(host);
    if host == seq!['*'] {
        Pattern::CatchAll
    } else if is_prefix(seq!['*', '.'], host) {
        Pattern::Wildcard(seq!['.'] + host.skip(2))
    } else {
        Pattern::Exact(host)
    }
}

/// `s` without any dot at its front.
pub open spec fn without_dots(s: Seq<char>) -> Seq<char>
    decreases s.len(),
{
    if s.len() > 0 && s[0] == '.' {
        without_dots(s.drop_first())
    } else {
        s
    }
}

/// Whether `s` ends in `suffix`.
pub open spec fn ends_in(s: Seq<char>, suffix: Seq<char>) -> bool {
    suffix.len() <= s.len() && s.skip(s.len() - suffix.len()) == suffix
}

/// Whether a wildcard covers a host: `*.example.net` covers `a.example.net` and
/// `a.b.example.net`, and also the bare `example.net`, matching what operators
/// expect from a wildcard DNS record.
pub open spec fn wildcard_covers(suffix: Seq<char>, host: Seq<char>) -> bool {
    ends_in(host, suffix) || host == without_dots(suffix)
}

/// Whether a rule applies on a listener.
pub open spec fn allowed(rule: RuleValue, listener: Seq<char>) -> bool {
    match rule.listeners {
        Some(names) => names.contains(listener),
        None => true,
    }
}

/// Whether a rule names this host exactly.
pub open spec fn exact_hit(rule: RuleValue, host: Seq<char>, listener: Seq<char>) -> bool {
    pattern_of(rule.host) == Pattern::Exact(lower(host)) && allowed(rule, listener)
}

/// Whether a rule covers this host by a wildcard.
pub open spec fn wildcard_hit(rule: RuleValue, host: Seq<char>, listener: Seq<char>) -> bool {
    match pattern_of(rule.host) {
        Pattern::Wildcard(suffix) => wildcard_covers(suffix, lower(host)) && allowed(
            rule,
            listener,
        ),
        _ => false,
    }
}

/// Whether a rule takes every host.
pub open spec fn catch_all_hit(rule: RuleValue, listener: Seq<char>) -> bool {
    pattern_of(rule.host) is CatchAll && allowed(rule, listener)
}

/// How specific a wildcard rule is: the length of its suffix in bytes.
pub open spec fn specificity(rule: RuleValue) -> nat {
    match pattern_of(rule.host) {
        Pattern::Wildcard(suffix) => encode_utf8(suffix).len(),
        _ => 0,
    }
}

/// Whether some rule names this host exactly.
pub open spec fn any_exact(rules: Seq<RuleValue>, host: Seq<char>, listener: Seq<char>) -> bool {
    exists|i: int| 0 <= i < rules.len() && exact_hit(#[trigger] rules[i], host, listener)
}

/// Whether some rule covers this host by a wildcard.
pub open spec fn any_wildcard(rules: Seq<RuleValue>, host: Seq<char>, listener: Seq<char>) -> bool {
    exists|i: int| 0 <= i < rules.len() && wildcard_hit(#[trigger] rules[i], host, listener)
}

/// Whether some rule takes every host.
pub open spec fn any_catch_all(rules: Seq<RuleValue>, listener: Seq<char>) -> bool {
    exists|i: int| 0 <= i < rules.len() && catch_all_hit(#[trigger] rules[i], listener)
}

/// Whether rule `i` is the first that names this host exactly.
pub open spec fn first_exact(
    rules: Seq<RuleValue>,
    host: Seq<char>,
    listener: Seq<char>,
    i: int,
) -> bool {
    &&& 0 <= i < rules.len()
    &&& exact_hit(rules[i], host, listener)
    &&& forall|j: int| 0 <= j < i ==> !exact_hit(#[trigger] rules[j], host, listener)
}

/// Whether rule `i` is the most specific wildcard that covers this host; the
/// first one where several are equally specific.
pub open spec fn best_wildcard(
    rules: Seq<RuleValue>,
    host: Seq<char>,
    listener: Seq<char>,
    i: int,
) -> bool {
    &&& 0 <= i < rules.len()
    &&& wildcard_hit(rules[i], host, listener)
    &&& forall|j: int|
        0 <= j < rules.len() && wildcard_hit(#[trigger] rules[j], host, listener) ==> {
            ||| specificity(rules[j]) < specificity(rules[i])
            ||| specificity(rules[j]) == specificity(rules[i]) && i <= j
        }
}

/// Whether rule `i` is the first that takes every host.
pub open spec fn first_catch_all(rules: Seq<RuleValue>, listener: Seq<char>, i: int) -> bool {
    &&& 0 <= i < rules.len()
    &&& catch_all_hit(rules[i], listener)
    &&& forall|j: int| 0 <= j < i ==> !catch_all_hit(#[trigger] rules[j], listener)
}

/// Whether rule `i` decides where a host leads: an exact rule before a wildcard,
/// and a wildcard before a catch-all.
pub open spec fn decides(
    rules: Seq<RuleValue>,
    host: Seq<char>,
    listener: Seq<char>,
    i: int,
) -> bool {
    if any_exact(rules, host, listener) {
        first_exact(rules, host, listener, i)
    } else if any_wildcard(rules, host, listener) {
        best_wildcard(rules, host, listener, i)
    } else {
        first_catch_all(rules, listener, i)
    }
}

/// Whether any rule applies to a host.
pub open spec fn any_rule(rules: Seq<RuleValue>, host: Seq<char>, listener: Seq<char>) -> bool {
    any_exact(rules, host, listener) || any_wildcard(rules, host, listener) || any_catch_all(
        rules,
        listener,
    )
}

/// Where a connection should go, and which rule decided it.
#[derive(Debug, Clone, Copy, PartialEq, Eq)]
pub struct RouteMatch<'a> {
    pub target: &'a str,
    pub rule: Option<&'a Rule>,
}

/// The rules of a configuration, sorted by how they match.
#[derive(Debug)]
pub struct Matcher {
    rules: Vec<Rule>,
    /// Host and rule index of each exact rule, in the order of the rules.
    exact: Vec<(Vec<char>, usize)>,
    /// Suffix, its length in bytes and rule index of each wildcard rule, the
    /// longest suffix first.
    wildcard: Vec<(Vec<char>, usize, usize)>,
    /// Rule index of each catch-all rule, in the order of the rules.
    catch_all: Vec<usize>,
    default: Option<String>,
}

impl Matcher {
    /// The rules as values.
    pub closed spec fn rules(&self) -> Seq<RuleValue> {
        rule_values(self.rules@)
    }

    /// Where hosts lead that no rule covers.
    pub closed spec fn default_target(&self) -> Option<Seq<char>> {
        opt_text(self.default)
    }

    spec fn exact_entry(&self, k: int) -> bool {
        let (host, i) = self.exact@[k];
        i < self.rules@.len() && pattern_of(self.rules()[i as int].host) == Pattern::Exact(host@)
    }

    spec fn wildcard_entry(&self, k: int) -> bool {
        let (suffix, len, i) = self.wildcard@[k];
        &&& i < self.rules@.len()
        &&& pattern_of(self.rules()[i as int].host) == Pattern::Wildcard(suffix@)
        &&& len == specificity(self.rules()[i as int])
    }

    spec fn catch_all_entry(&self, k: int) -> bool {
        let i = self.catch_all@[k];
        i < self.rules@.len() && pattern_of(self.rules()[i as int].host) is CatchAll
    }

    /// The three lists hold exactly the first `n` rules, each in its place and
    /// in order.
    spec fn sorted_up_to(&self, n: int) -> bool {
        &&& 0 <= n <= self.rules@.len()
        &&& forall|k: int|
            0 <= k < self.exact@.len() ==> #[trigger] self.exact_entry(k) && self.exact@[k].1 < n
        &&& forall|k: int|
            0 <= k < self.wildcard@.len() ==> #[trigger] self.wildcard_entry(k)
                && self.wildcard@[k].2 < n
        &&& forall|k: int|
            0 <= k < self.catch_all@.len() ==> #[trigger] self.catch_all_entry(k)
                && self.catch_all@[k] < n
        &&& forall|j: int, k: int|
            0 <= j < k < self.exact@.len() ==> self.exact@[j].1 < self.exact@[k].1
        &&& forall|j: int, k: int|
            0 <= j < k < self.catch_all@.len() ==> self.catch_all@[j] < self.catch_all@[k]
        &&& forall|j: int, k: int|
            0 <= j < k < self.wildcard@.len() ==> {
                ||| self.wildcard@[j].1 > self.wildcard@[k].1
                ||| self.wildcard@[j].1 == self.wildcard@[k].1 && self.wildcard@[j].2
                    < self.wildcard@[k].2
            }
        &&& forall|i: int|
            0 <= i < n ==> match pattern_of((#[trigger] self.rules()[i]).host) {
                Pattern::Exact(_) => exists|k: int|
                    0 <= k < self.exact@.len() && #[trigger] self.exact@[k].1 == i,
                Pattern::Wildcard(_) => exists|k: int|
                    0 <= k < self.wildcard@.len() && #[trigger] self.wildcard@[k].2 == i,
                Pattern::CatchAll => exists|k: int|
                    0 <= k < self.catch_all@.len() && #[trigger] self.catch_all@[k] == i,
            }
    }

    /// The lists hold all rules.
    pub closed spec fn wf(&self) -> bool {
        self.sorted_up_to(self.rules@.len() as int)
    }
}

fn is_allowed(rule: &Rule, listener: &str) -> (yes: bool)
    ensures
        yes == allowed(rule@, listener@),
{
    match &rule.listeners {
        Some(names) => lists_text(names, listener),
        None => true,
    }
}

fn covers(suffix: &[char], host: &[char]) -> (yes: bool)
    ensures
        yes == wildcard_covers(suffix@, host@),
{
    if suffix.len() <= host.len() {
        let tail = sub_chars(host, host.len() - suffix.len(), host.len());
        assert(tail@ =~= host@.skip(host@.len() - suffix@.len()));
        if same_chars(tail, suffix) {
            return true;
        }
    }
    let mut i: usize = 0;
    assert(suffix@.skip(0) =~= suffix@);
    while i < suffix.len() && suffix[i] == '.'
        invariant
            i <= suffix@.len(),
            without_dots(suffix@) == without_dots(suffix@.skip(i as int)),
        decreases suffix@.len() - i,
    {
        assert(suffix@.skip(i as int).drop_first() =~= suffix@.skip(i + 1));
        i = i + 1;
    }
    let bare = sub_chars(suffix, i, suffix.len());
    assert(bare@ =~= suffix@.skip(i as int));
    same_chars(host, bare)
}

impl Matcher {
    fn add_exact(&mut self, host: Vec<char>, index: usize)
        requires
            old(self).sorted_up_to(index as int),
            index < old(self).rules@.len(),
            pattern_of(old(self).rules()[index as int].host) == Pattern::Exact(host@),
        ensures
            final(self).sorted_up_to(index + 1),
            final(self).rules == old(self).rules,
            final(self).default == old(self).default,
    {
        let ghost before = *self;
        self.exact.push((host, index));
        proof {
            let n = before.exact@.len() as int;
            assert forall|k: int| 0 <= k < self.exact@.len() implies #[trigger] self.exact_entry(k)
                && self.exact@[k].1 < index + 1 by {
                if k < n {
                    assert(before.exact_entry(k));
                    assert(self.exact@[k] == before.exact@[k]);
                }
            }
            assert forall|k: int| 0 <= k < self.wildcard@.len() implies #[trigger] self.wildcard_entry(
                k,
            ) && self.wildcard@[k].2 < index + 1 by {
                assert(before.wildcard_entry(k));
            }
            assert forall|k: int| 0 <= k < self.catch_all@.len() implies #[trigger] self.catch_all_entry(
                k,
            ) && self.catch_all@[k] < index + 1 by {
                assert(before.catch_all_entry(k));
            }
            assert forall|j: int, k: int| 0 <= j < k < self.exact@.len() implies self.exact@[j].1
                < self.exact@[k].1 by {
                assert(before.exact_entry(j));
            }
            assert forall|i: int| 0 <= i < index + 1 implies match pattern_of(
                (#[trigger] self.rules()[i]).host,
            ) {
                Pattern::Exact(_) => exists|k: int|
                    0 <= k < self.exact@.len() && #[trigger] self.exact@[k].1 == i,
                Pattern::Wildcard(_) => exists|k: int|
                    0 <= k < self.wildcard@.len() && #[trigger] self.wildcard@[k].2 == i,
                Pattern::CatchAll => exists|k: int|
                    0 <= k < self.catch_all@.len() && #[trigger] self.catch_all@[k] == i,
            } by {
                if i == index {
                    assert(self.exact@[n].1 == i);
                } else {
                    assert(self.rules()[i] == before.rules()[i]);
                    if pattern_of(before.rules()[i].host) is Exact {
                        let k = choose|k: int|
                            0 <= k < before.exact@.len() && #[trigger] before.exact@[k].1 == i;
                        assert(self.exact@[k].1 == i);
                    }
                }
            }
        }
    }

    fn add_catch_all(&mut self, index: usize)
        requires
            old(self).sorted_up_to(index as int),
            index < old(self).rules@.len(),
            pattern_of(old(self).rules()[index as int].host) is CatchAll,
        ensures
            final(self).sorted_up_to(index + 1),
            final(self).rules == old(self).rules,
            final(self).default == old(self).default,
    {
        let ghost before = *self;
        self.catch_all.push(index);
        proof {
            let n = before.catch_all@.len() as int;
            assert forall|k: int| 0 <= k < self.exact@.len() implies #[trigger] self.exact_entry(k)
                && self.exact@[k].1 < index + 1 by {
                assert(before.exact_entry(k));
            }
            assert forall|k: int| 0 <= k < self.wildcard@.len() implies #[trigger] self.wildcard_entry(
                k,
            ) && self.wildcard@[k].2 < index + 1 by {
                assert(before.wildcard_entry(k));
            }
            assert forall|k: int| 0 <= k < self.catch_all@.len() implies #[trigger] self.catch_all_entry(
                k,
            ) && self.catch_all@[k] < index + 1 by {
                if k < n {
                    assert(before.catch_all_entry(k));
                    assert(self.catch_all@[k] == before.catch_all@[k]);
                }
            }
            assert forall|j: int, k: int|
                0 <= j < k < self.catch_all@.len() implies self.catch_all@[j]
                < self.catch_all@[k] by {
                assert(before.catch_all_entry(j));
            }
            assert forall|i: int| 0 <= i < index + 1 implies match pattern_of(
                (#[trigger] self.rules()[i]).host,
            ) {
                Pattern::Exact(_) => exists|k: int|
                    0 <= k < self.exact@.len() && #[trigger] self.exact@[k].1 == i,
                Pattern::Wildcard(_) => exists|k: int|
                    0 <= k < self.wildcard@.len() && #[trigger] self.wildcard@[k].2 == i,
                Pattern::CatchAll => exists|k: int|
                    0 <= k < self.catch_all@.len() && #[trigger] self.catch_all@[k] == i,
            } by {
                if i == index {
                    assert(self.catch_all@[n] == i);
                } else {
                    assert(self.rules()[i] == before.rules()[i]);
                    if pattern_of(before.rules()[i].host) is CatchAll {
                        let k = choose|k: int|
                            0 <= k < before.catch_all@.len() && #[trigger] before.catch_all@[k]
                                == i;
                        assert(self.catch_all@[k] == i);
                    }
                }
            }
        }
    }

    /// Adds a wildcard behind those that are at least as long.
    fn add_wildcard(&mut self, suffix: Vec<char>, len: usize, index: usize)
        requires
            old(self).sorted_up_to(index as int),
            index < old(self).rules@.len(),
            pattern_of(old(self).rules()[index as int].host) == Pattern::Wildcard(suffix@),
            len == specificity(old(self).rules()[index as int]),
        ensures
            final(self).sorted_up_to(index + 1),
            final(self).rules == old(self).rules,
            final(self).default == old(self).default,
    {
        let ghost before = *self;
        let mut at: usize = 0;
        while at < self.wildcard.len() && self.wildcard[at].1 >= len
            invariant
                at <= self.wildcard@.len(),
                *self == before,
                forall|k: int| 0 <= k < at ==> (#[trigger] before.wildcard@[k]).1 >= len,
            decreases self.wildcard@.len() - at,
        {
            at = at + 1;
        }
        self.wildcard.insert(at, (suffix, len, index));
        proof {
            let ghost list = before.wildcard@;
            assert forall|k: int| at <= k < list.len() implies (#[trigger] list[k]).1 < len by {
                if k > at {
                    assert(list[at as int].1 >= list[k].1);
                }
            }
            assert forall|k: int| 0 <= k < self.exact@.len() implies #[trigger] self.exact_entry(k)
                && self.exact@[k].1 < index + 1 by {
                assert(before.exact_entry(k));
            }
            assert forall|k: int| 0 <= k < self.catch_all@.len() implies #[trigger] self.catch_all_entry(
                k,
            ) && self.catch_all@[k] < index + 1 by {
                assert(before.catch_all_entry(k));
            }
            assert forall|k: int| 0 <= k < self.wildcard@.len() implies #[trigger] self.wildcard_entry(
                k,
            ) && self.wildcard@[k].2 < index + 1 by {
                if k < at {
                    assert(before.wildcard_entry(k));
                    assert(self.wildcard@[k] == list[k]);
                } else if k > at {
                    assert(before.wildcard_entry(k - 1));
                    assert(self.wildcard@[k] == list[k - 1]);
                }
            }
            assert forall|j: int, k: int| 0 <= j < k < self.wildcard@.len() implies {
                ||| self.wildcard@[j].1 > self.wildcard@[k].1
                ||| self.wildcard@[j].1 == self.wildcard@[k].1 && self.wildcard@[j].2
                    < self.wildcard@[k].2
            } by {
                if k < at {
                    assert(self.wildcard@[j] == list[j] && self.wildcard@[k] == list[k]);
                } else if k == at {
                    assert(self.wildcard@[j] == list[j]);
                    assert(before.wildcard_entry(j));
                } else if j < at {
                    assert(self.wildcard@[j] == list[j] && self.wildcard@[k] == list[k - 1]);
                } else if j == at {
                    assert(self.wildcard@[k] == list[k - 1]);
                } else {
                    assert(self.wildcard@[j] == list[j - 1] && self.wildcard@[k] == list[k - 1]);
                }
            }
            assert forall|i: int| 0 <= i < index + 1 implies match pattern_of(
                (#[trigger] self.rules()[i]).host,
            ) {
                Pattern::Exact(_) => exists|k: int|
                    0 <= k < self.exact@.len() && #[trigger] self.exact@[k].1 == i,
                Pattern::Wildcard(_) => exists|k: int|
                    0 <= k < self.wildcard@.len() && #[trigger] self.wildcard@[k].2 == i,
                Pattern::CatchAll => exists|k: int|
                    0 <= k < self.catch_all@.len() && #[trigger] self.catch_all@[k] == i,
            } by {
                if i == index {
                    assert(self.wildcard@[at as int].2 == i);
                } else {
                    assert(self.rules()[i] == before.rules()[i]);
                    if pattern_of(before.rules()[i].host) is Wildcard {
                        let k = choose|k: int|
                            0 <= k < before.wildcard@.len() && #[trigger] before.wildcard@[k].2
                                == i;
                        let m = if k < at {
                            k
                        } else {
                            k + 1
                        };
                        assert(self.wildcard@[m].2 == i);
                    }
                }
            }
        }
    }

    /// Sorts the rules of a configuration for lookup.
    pub fn build(config: &Config) -> (matcher: Self)
        ensures
            matcher.wf(),
            matcher.rules() == rule_values(config.routing.rules@),
            matcher.default_target() == opt_text(config.routing.default),
    {
        let source = &config.routing.rules;
        let mut rules: Vec<Rule> = Vec::new();
        let mut i: usize = 0;
        while i < source.len()
            invariant
                i <= source@.len(),
                rules@.len() == i,
                forall|k: int| 0 <= k < i ==> (#[trigger] rules@[k])@ == source@[k]@,
            decreases source@.len() - i,
        {
            rules.push(source[i].copy());
            i = i + 1;
        }
        assert(rule_values(rules@) =~= rule_values(source@));
        let mut matcher = Matcher {
            rules,
            exact: Vec::new(),
            wildcard: Vec::new(),
            catch_all: Vec::new(),
            default: copy_opt(&config.routing.default),
        };
        let count: usize = matcher.rules.len();
        let mut index: usize = 0;
        while index < count
            invariant
                index <= count,
                count == matcher.rules@.len(),
                matcher.sorted_up_to(index as int),
                matcher.rules() == rule_values(config.routing.rules@),
                opt_text(matcher.default) == opt_text(config.routing.default),
            decreases count - index,
        {
            let host: Vec<char> = to_lower(to_chars(matcher.rules[index].host.as_str()).as_slice());
            assert(host@ == lower(matcher.rules()[index as int].host));
            if host.len() == 1 && host[0] == '*' {
                assert(host@ =~= seq!['*']);
                matcher.add_catch_all(index);
            } else if host.len() >= 2 && host[0] == '*' && host[1] == '.' {
                assert(host@.take(2) =~= seq!['*', '.']);
                assert(host@.len() != 1);
                let mut suffix: Vec<char> = Vec::new();
                suffix.push('.');
                let rest = sub_chars(host.as_slice(), 2, host.len());
                suffix.extend_from_slice(rest);
                assert(suffix@ =~= seq!['.'] + host@.skip(2));
                let len: usize = from_chars(suffix.as_slice()).as_str().as_bytes().len();
                matcher.add_wildcard(suffix, len, index);
            } else {
                assert(!is_prefix(seq!['*', '.'], host@)) by {
                    if is_prefix(seq!['*', '.'], host@) {
                        assert(host@[0] == host@.take(2)[0]);
                        assert(host@[1] == host@.take(2)[1]);
                    }
                }
                matcher.add_exact(host, index);
            }
            index = index + 1;
        }
        matcher
    }

    fn matched(&self, index: usize) -> (hit: RouteMatch<'_>)
        requires
            index < self.rules@.len(),
        ensures
            hit.rule is Some,
            hit.rule->Some_0@ == self.rules()[index as int],
            hit.target@ == self.rules()[index as int].target,
    {
        let rule = &self.rules[index];
        RouteMatch { target: rule.target.as_str(), rule: Some(rule) }
    }

    /// Resolves `host` (already normalised by `Handshake::hostname`) for a
    /// connection that arrived on `listener`.
    pub fn match_host(&self, host: &str, listener: &str) -> (hit: Option<RouteMatch<'_>>)
        requires
            self.wf(),
        ensures
            if any_rule(self.rules(), host@, listener@) {
                &&& hit is Some
                &&& hit->Some_0.rule is Some
                &&& exists|i: int| #[trigger]
                    decides(self.rules(), host@, listener@, i) && hit->Some_0.rule->Some_0@
                        == self.rules()[i] && hit->Some_0.target@ == self.rules()[i].target
            } else {
                match self.default_target() {
                    Some(target) => hit is Some && hit->Some_0.rule is None
                        && hit->Some_0.target@ == target,
                    None => hit is None,
                }
            },
    {
        let wanted: Vec<char> = to_lower(to_chars(host).as_slice());
        let ghost rules = self.rules();
        assert(rules.len() == self.rules@.len());
        let mut k: usize = 0;
        while k < self.exact.len()
            invariant
                k <= self.exact@.len(),
                self.wf(),
                rules == self.rules(),
                rules.len() == self.rules@.len(),
                wanted@ == lower(host@),
                forall|j: int|
                    0 <= j < k ==> !exact_hit(
                        rules[#[trigger] self.exact@[j].1 as int],
                        host@,
                        listener@,
                    ),
            decreases self.exact@.len() - k,
        {
            assert(self.exact_entry(k as int));
            let index: usize = self.exact[k].1;
            assert(rules[index as int] == self.rules@[index as int]@);
            if same_chars(self.exact[k].0.as_slice(), wanted.as_slice()) && is_allowed(
                &self.rules[index],
                listener,
            ) {
                proof {
                    assert(exact_hit(rules[index as int], host@, listener@));
                    assert forall|j: int| 0 <= j < index implies !exact_hit(
                        #[trigger] rules[j],
                        host@,
                        listener@,
                    ) by {
                        if exact_hit(rules[j], host@, listener@) {
                            let m = choose|m: int|
                                0 <= m < self.exact@.len() && #[trigger] self.exact@[m].1 == j;
                            assert(m < k);
                        }
                    }
                    assert(decides(rules, host@, listener@, index as int));
                }
                return Some(self.matched(index));
            }
            k = k + 1;
        }
        proof {
            assert forall|i: int| 0 <= i < rules.len() implies !exact_hit(
                #[trigger] rules[i],
                host@,
                listener@,
            ) by {
                if exact_hit(rules[i], host@, listener@) {
                    let m = choose|m: int|
                        0 <= m < self.exact@.len() && #[trigger] self.exact@[m].1 == i;
                    assert(!exact_hit(rules[self.exact@[m].1 as int], host@, listener@));
                }
            }
        }
        let mut w: usize = 0;
        while w < self.wildcard.len()
            invariant
                w <= self.wildcard@.len(),
                self.wf(),
                rules == self.rules(),
                rules.len() == self.rules@.len(),
                wanted@ == lower(host@),
                !any_exact(rules, host@, listener@),
                forall|j: int|
                    0 <= j < w ==> !wildcard_hit(
                        rules[#[trigger] self.wildcard@[j].2 as int],
                        host@,
                        listener@,
                    ),
            decreases self.wildcard@.len() - w,
        {
            assert(self.wildcard_entry(w as int));
            let index: usize = self.wildcard[w].2;
            assert(rules[index as int] == self.rules@[index as int]@);
            if covers(self.wildcard[w].0.as_slice(), wanted.as_slice()) && is_allowed(
                &self.rules[index],
                listener,
            ) {
                proof {
                    assert(wildcard_hit(rules[index as int], host@, listener@));
                    assert forall|j: int|
                        0 <= j < rules.len() && wildcard_hit(
                            #[trigger] rules[j],
                            host@,
                            listener@,
                        ) implies {
                        ||| specificity(rules[j]) < specificity(rules[index as int])
                        ||| specificity(rules[j]) == specificity(rules[index as int]) && index <= j
                    } by {
                        let m = choose|m: int|
                            0 <= m < self.wildcard@.len() && #[trigger] self.wildcard@[m].2 == j;
                        assert(!(m < w));
                        assert(self.wildcard_entry(m));
                    }
                    assert(decides(rules, host@, listener@, index as int));
                }
                return Some(self.matched(index));
            }
            w = w + 1;
        }
        proof {
            assert forall|i: int| 0 <= i < rules.len() implies !wildcard_hit(
                #[trigger] rules[i],
                host@,
                listener@,
            ) by {
                if wildcard_hit(rules[i], host@, listener@) {
                    let m = choose|m: int|
                        0 <= m < self.wildcard@.len() && #[trigger] self.wildcard@[m].2 == i;
                    assert(!wildcard_hit(rules[self.wildcard@[m].2 as int], host@, listener@));
                }
            }
        }
        let mut c: usize = 0;
        while c < self.catch_all.len()
            invariant
                c <= self.catch_all@.len(),
                self.wf(),
                rules == self.rules(),
                rules.len() == self.rules@.len(),
                !any_exact(rules, host@, listener@),
                !any_wildcard(rules, host@, listener@),
                forall|j: int|
                    0 <= j < c ==> !catch_all_hit(
                        rules[#[trigger] self.catch_all@[j] as int],
                        listener@,
                    ),
            decreases self.catch_all@.len() - c,
        {
            assert(self.catch_all_entry(c as int));
            let index: usize = self.catch_all[c];
            assert(rules[index as int] == self.rules@[index as int]@);
            if is_allowed(&self.rules[index], listener) {
                proof {
                    assert(catch_all_hit(rules[index as int], listener@));
                    assert forall|j: int| 0 <= j < index implies !catch_all_hit(
                        #[trigger] rules[j],
                        listener@,
                    ) by {
                        if catch_all_hit(rules[j], listener@) {
                            let m = choose|m: int|
                                0 <= m < self.catch_all@.len() && #[trigger] self.catch_all@[m] == j;
                            assert(m < c);
                        }
                    }
                    assert(decides(rules, host@, listener@, index as int));
                }
                return Some(self.matched(index));
            }
            c = c + 1;
        }
        proof {
            assert forall|i: int| 0 <= i < rules.len() implies !catch_all_hit(
                #[trigger] rules[i],
                listener@,
            ) by {
                if catch_all_hit(rules[i], listener@) {
                    let m = choose|m: int|
                        0 <= m < self.catch_all@.len() && #[trigger] self.catch_all@[m] == i;
                    assert(!catch_all_hit(rules[self.catch_all@[m] as int], listener@));
                }
            }
        }
        match &self.default {
            Some(target) => Some(RouteMatch { target: target.as_str(), rule: None }),
            None => None,
        }
    }
}

// -------------------------------------------------------------------- laws --

/// At most one rule decides where a host leads.
pub proof fn one_rule_decides(
    rules: Seq<RuleValue>,
    host: Seq<char>,
    listener: Seq<char>,
    i: int,
    j: int,
)
    requires
        decides(rules, host, listener, i),
        decides(rules, host, listener, j),
    ensures
        i == j,
{
    if any_exact(rules, host, listener) {
        if i < j {
            assert(!exact_hit(rules[i], host, listener));
        } else if j < i {
            assert(!exact_hit(rules[j], host, listener));
        }
    } else if any_wildcard(rules, host, listener) {
        assert(wildcard_hit(rules[i], host, listener));
        assert(wildcard_hit(rules[j], host, listener));
    } else {
        if i < j {
            assert(!catch_all_hit(rules[i], listener));
        } else if j < i {
            assert(!catch_all_hit(rules[j], listener));
        }
    }
}

/// An exact rule wins over every wildcard and every catch-all.
pub proof fn exact_hosts_win(
    rules: Seq<RuleValue>,
    host: Seq<char>,
    listener: Seq<char>,
    exact: int,
    i: int,
)
    requires
        0 <= exact < rules.len(),
        exact_hit(rules[exact], host, listener),
        decides(rules, host, listener, i),
    ensures
        exact_hit(rules[i], host, listener),
        i <= exact,
{
    assert(any_exact(rules, host, listener));
}

/// Of two wildcards that cover a host the longer one wins.
pub proof fn longest_wildcard_wins(
    rules: Seq<RuleValue>,
    host: Seq<char>,
    listener: Seq<char>,
    longer: int,
    shorter: int,
)
    requires
        0 <= longer < rules.len(),
        0 <= shorter < rules.len(),
        wildcard_hit(rules[longer], host, listener),
        wildcard_hit(rules[shorter], host, listener),
        specificity(rules[longer]) > specificity(rules[shorter]),
    ensures
        !decides(rules, host, listener, shorter),
{
    assert(any_wildcard(rules, host, listener));
    if decides(rules, host, listener, shorter) {
        assert(!exact_hit(rules[shorter], host, listener));
        assert(best_wildcard(rules, host, listener, shorter));
        assert(wildcard_hit(rules[longer], host, listener));
    }
}

/// A rule that is restricted to other listeners never decides.
pub proof fn listener_restrictions_hold(
    rules: Seq<RuleValue>,
    host: Seq<char>,
    listener: Seq<char>,
    i: int,
)
    requires
        decides(rules, host, listener, i),
    ensures
        0 <= i < rules.len(),
        allowed(rules[i], listener),
{
}

/// The case of the letters of a host does not change where it leads.
pub proof fn matching_ignores_case(
    rules: Seq<RuleValue>,
    a: Seq<char>,
    b: Seq<char>,
    listener: Seq<char>,
    i: int,
)
    requires
        lower(a) == lower(b),
    ensures
        decides(rules, a, listener, i) == decides(rules, b, listener, i),
        any_rule(rules, a, listener) == any_rule(rules, b, listener),
{
    assert(forall|k: int|
        0 <= k < rules.len() ==> exact_hit(#[trigger] rules[k], a, listener) == exact_hit(
            rules[k],
            b,
            listener,
        ));
    assert(forall|k: int|
        0 <= k < rules.len() ==> wildcard_hit(#[trigger] rules[k], a, listener) == wildcard_hit(
            rules[k],
            b,
            listener,
        ));
    assert(any_exact(rules, a, listener) == any_exact(rules, b, listener));
    assert(any_wildcard(rules, a, listener) == any_wildcard(rules, b, listener));
    assert(first_exact(rules, a, listener, i) == first_exact(rules, b, listener, i));
    assert(best_wildcard(rules, a, listener, i) == best_wildcard(rules, b, listener, i));
}

/// Whether a rule, were it the only one, would decide where a host leads.
pub open spec fn alone_decides(rule: RuleValue, host: Seq<char>, listener: Seq<char>) -> bool {
    decides(seq![rule], host, listener, 0)
}

proof fn lemma_alone(rule: RuleValue, host: Seq<char>, listener: Seq<char>)
    ensures
        alone_decides(rule, host, listener) == (exact_hit(rule, host, listener) || wildcard_hit(
            rule,
            host,
            listener,
        ) || catch_all_hit(rule, listener)),
{
    let rules = seq![rule];
    assert(rules[0] == rule);
    if exact_hit(rule, host, listener) {
        assert(exact_hit(rules[0], host, listener));
        assert(any_exact(rules, host, listener));
    }
    if wildcard_hit(rule, host, listener) {
        assert(wildcard_hit(rules[0], host, listener));
        assert(any_wildcard(rules, host, listener));
    }
    if any_exact(rules, host, listener) {
        let i = choose|i: int|
            0 <= i < rules.len() && exact_hit(#[trigger] rules[i], host, listener);
        assert(i == 0);
    }
    if any_wildcard(rules, host, listener) {
        let i = choose|i: int|
            0 <= i < rules.len() && wildcard_hit(#[trigger] rules[i], host, listener);
        assert(i == 0);
    }
}

/// `n` dots.
pub open spec fn dots(n: nat) -> Seq<char> {
    Seq::new(n, |i: int| '.')
}

proof fn lemma_without_dots(n: nat, rest: Seq<char>)
    requires
        rest.len() == 0 || rest[0] != '.',
    ensures
        without_dots(dots(n) + rest) == rest,
    decreases n,
{
    let s = dots(n) + rest;
    if n > 0 {
        assert(s[0] == '.');
        assert(s.drop_first() =~= dots((n - 1) as nat) + rest);
        lemma_without_dots((n - 1) as nat, rest);
    } else {
        assert(s =~= rest);
    }
}

proof fn lemma_lower_parts(a: Seq<char>, b: Seq<char>)
    ensures
        lower(a + b) == lower(a) + lower(b),
{
    assert(lower(a + b) =~= lower(a) + lower(b));
}

/// A rule `*.d` takes a host exactly where the host is `d` or ends in `.d`, in
/// any case, and the rule holds on the listener. A host that merely ends in the
/// letters of `d` belongs to another domain and is not taken.
pub proof fn wildcards_take_their_domain_only(
    rule: RuleValue,
    domain: Seq<char>,
    host: Seq<char>,
    listener: Seq<char>,
)
    requires
        rule.host == seq!['*', '.'] + domain,
        domain.len() == 0 || domain[0] != '.',
    ensures
        alone_decides(rule, host, listener) == ((rule.listeners is None
            || rule.listeners->Some_0.contains(listener)) && (lower(host) == lower(domain)
            || exists|front: Seq<char>| lower(host) == #[trigger] (front + seq!['.']) + lower(
            domain,
        ))),
{
    assert(domain =~= dots(0) + domain);
    assert(dots(0) =~= Seq::<char>::empty());
    wildcards_ignore_dots_of_the_bare_domain(rule, 0, domain, host, listener);
    assert forall|front: Seq<char>| #[trigger] (front + seq!['.']) + lower(domain) == (front + seq![
        '.',
    ]) + (dots(0) + lower(domain)) by {
        assert(dots(0) + lower(domain) =~= lower(domain));
    }
}

/// The same where the domain is written with dots in front: they belong to what
/// a longer host has to end in, and not to the bare domain.
pub proof fn wildcards_ignore_dots_of_the_bare_domain(
    rule: RuleValue,
    n: nat,
    domain: Seq<char>,
    host: Seq<char>,
    listener: Seq<char>,
)
    requires
        rule.host == seq!['*', '.'] + (dots(n) + domain),
        domain.len() == 0 || domain[0] != '.',
    ensures
        alone_decides(rule, host, listener) == ((rule.listeners is None
            || rule.listeners->Some_0.contains(listener)) && (lower(host) == lower(domain)
            || exists|front: Seq<char>| lower(host) == #[trigger] (front + seq!['.']) + (dots(n)
            + lower(domain)))),
{
    lemma_alone(rule, host, listener);
    let star = seq!['*', '.'];
    let small = lower(domain);
    lemma_lower_parts(star, dots(n) + domain);
    lemma_lower_parts(dots(n), domain);
    assert(lower(star) =~= star);
    assert(lower(dots(n)) =~= dots(n));
    let pattern = lower(rule.host);
    assert(pattern.take(2) =~= star);
    assert(pattern.len() >= 2 && seq!['*'].len() == 1);
    assert(pattern.skip(2) =~= dots(n) + small);
    let suffix = seq!['.'] + (dots(n) + small);
    assert(pattern_of(rule.host) == Pattern::Wildcard(suffix));
    assert(suffix =~= dots(n + 1) + small);
    if domain.len() > 0 {
        crate::text::lemma_lower_char(domain[0]);
        assert(small[0] == crate::text::lower_char(domain[0]));
        assert(small[0] != '.');
    }
    lemma_without_dots(n + 1, small);
    let h = lower(host);
    if ends_in(h, suffix) {
        let front = h.take(h.len() - suffix.len());
        assert(h =~= front + suffix);
        assert(h =~= (front + seq!['.']) + (dots(n) + small));
    }
    if exists|front: Seq<char>| h == #[trigger] (front + seq!['.']) + (dots(n) + small) {
        let front = choose|front: Seq<char>|
            h == #[trigger] (front + seq!['.']) + (dots(n) + small);
        assert(h =~= front + suffix);
        assert(h.skip(h.len() - suffix.len()) =~= suffix);
    }
}

/// A rule that begins with no `*.` and is no `*` takes exactly the host that it
/// names, in any case; the rule `*` takes every host.
pub proof fn other_rules_take_their_host(rule: RuleValue, host: Seq<char>, listener: Seq<char>)
    ensures
        rule.host == seq!['*'] ==> alone_decides(rule, host, listener) == (rule.listeners is None
            || rule.listeners->Some_0.contains(listener)),
        rule.host != seq!['*'] && !(rule.host.len() >= 2 && rule.host[0] == '*' && rule.host[1]
            == '.') ==> alone_decides(rule, host, listener) == (lower(rule.host) == lower(host) && (
        rule.listeners is None || rule.listeners->Some_0.contains(listener))),
{
    lemma_alone(rule, host, listener);
    let pattern = lower(rule.host);
    assert(lower(seq!['*']) =~= seq!['*']);
    if rule.host.len() == 1 {
        crate::text::lemma_lower_char(rule.host[0]);
        if pattern == seq!['*'] {
            assert(pattern[0] == crate::text::lower_char(rule.host[0]));
            assert(rule.host[0] == '*');
            assert(rule.host =~= seq!['*']);
        }
    }
    if rule.host.len() >= 2 {
        crate::text::lemma_lower_char(rule.host[0]);
        crate::text::lemma_lower_char(rule.host[1]);
        assert(pattern[0] == crate::text::lower_char(rule.host[0]));
        assert(pattern[1] == crate::text::lower_char(rule.host[1]));
        if is_prefix(seq!['*', '.'], pattern) {
            assert(pattern.take(2)[0] == '*' && pattern.take(2)[1] == '.');
        }
    }
}

/// Of the rules that would take a host, one decides: the first that names it
/// exactly; else the first of the longest that end in its domain; else the first
/// that takes every host. A rule that would not take the host never decides.
pub proof fn the_best_rule_decides(
    rules: Seq<RuleValue>,
    host: Seq<char>,
    listener: Seq<char>,
    i: int,
    j: int,
)
    requires
        decides(rules, host, listener, i),
        0 <= j < rules.len(),
        alone_decides(rules[j], host, listener),
    ensures
        0 <= i < rules.len(),
        alone_decides(rules[i], host, listener),
        ({
            let exact = |r: RuleValue|
                r.host != seq!['*'] && !(r.host.len() >= 2 && r.host[0] == '*' && r.host[1]
                    == '.');
            let winner = rules[i];
            let other = rules[j];
            &&& exact(other) ==> exact(winner) && i <= j
            &&& exact(winner) || other.host == seq!['*'] || (winner.host != seq!['*'] && (
            encode_utf8(lower(winner.host)).len() > encode_utf8(lower(other.host)).len()
                || encode_utf8(lower(winner.host)).len() == encode_utf8(lower(other.host)).len()
                && i <= j))
            &&& winner.host == seq!['*'] && other.host == seq!['*'] ==> i <= j
        }),
{
    lemma_alone(rules[i], host, listener);
    lemma_alone(rules[j], host, listener);
    lemma_form(rules[i].host);
    lemma_form(rules[j].host);
    if exact_hit(rules[j], host, listener) {
        assert(any_exact(rules, host, listener));
    }
    if wildcard_hit(rules[j], host, listener) {
        assert(any_wildcard(rules, host, listener));
    }
    if any_exact(rules, host, listener) {
        assert(exact_hit(rules[i], host, listener));
    } else if any_wildcard(rules, host, listener) {
        assert(wildcard_hit(rules[i], host, listener));
    }
}

/// Where some rule would take a host, some rule decides; where none would, none
/// does.
pub proof fn some_rule_decides(rules: Seq<RuleValue>, host: Seq<char>, listener: Seq<char>)
    ensures
        any_rule(rules, host, listener) == (exists|j: int|
            0 <= j < rules.len() && alone_decides(#[trigger] rules[j], host, listener)),
{
    if any_rule(rules, host, listener) {
        let j = if any_exact(rules, host, listener) {
            choose|j: int| 0 <= j < rules.len() && exact_hit(#[trigger] rules[j], host, listener)
        } else if any_wildcard(rules, host, listener) {
            choose|j: int| 0 <= j < rules.len() && wildcard_hit(#[trigger] rules[j], host, listener)
        } else {
            choose|j: int| 0 <= j < rules.len() && catch_all_hit(#[trigger] rules[j], listener)
        };
        lemma_alone(rules[j], host, listener);
    }
    if exists|j: int| 0 <= j < rules.len() && alone_decides(#[trigger] rules[j], host, listener) {
        let j = choose|j: int|
            0 <= j < rules.len() && alone_decides(#[trigger] rules[j], host, listener);
        lemma_alone(rules[j], host, listener);
    }
}

/// The kind of a rule shows in its first characters, and the length of a
/// wildcard's suffix in the length of the rule.
proof fn lemma_form(host: Seq<char>)
    ensures
        (pattern_of(host) is CatchAll) == (host == seq!['*']),
        (pattern_of(host) is Wildcard) == (host.len() >= 2 && host[0] == '*' && host[1] == '.'),
        pattern_of(host) is Wildcard ==> encode_utf8(lower(host)).len() == encode_utf8(
            pattern_of(host)->Wildcard_0,
        ).len() + 1,
{
    let pattern = lower(host);
    assert(lower(seq!['*']) =~= seq!['*']);
    if host.len() >= 1 {
        crate::text::lemma_lower_char(host[0]);
        assert(pattern[0] == crate::text::lower_char(host[0]));
        if host.len() == 1 && host[0] == '*' {
            assert(host =~= seq!['*']);
            assert(pattern =~= seq!['*']);
        }
    }
    if host.len() >= 2 {
        crate::text::lemma_lower_char(host[1]);
        assert(pattern[1] == crate::text::lower_char(host[1]));
        if host[0] == '*' && host[1] == '.' {
            assert(pattern.take(2) =~= seq!['*', '.']);
        }
        if is_prefix(seq!['*', '.'], pattern) {
            assert(pattern.take(2)[0] == '*' && pattern.take(2)[1] == '.');
        }
    }
    if pattern_of(host) is Wildcard {
        let suffix = seq!['.'] + pattern.skip(2);
        assert(pattern =~= seq!['*'] + suffix);
        assert(pattern.drop_first() =~= suffix);
        assert(pattern[0] == '*');
    }
}

} // verus!
